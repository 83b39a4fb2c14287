use ksync::kernel::Kernel;
use ksync::sync::{Action, Mutex, MutexBlocking, MutexSpin, Outcome};
use ksync::task::TaskControlBlock;
use ksync::DEADLOCK;

fn task(id: usize) -> TaskControlBlock {
    let mut t = TaskControlBlock::init();
    t.id = id;
    t
}

fn mutex(id: usize) -> MutexBlocking {
    let mut m = MutexBlocking::new(0);
    m.id = id;
    m
}

fn kernel(tasks: &[usize], mutexes: &[usize]) -> Kernel {
    let mut k = Kernel::new();
    for t in tasks {
        k.tasks.push(task(*t));
    }
    for m in mutexes {
        k.mutexes.push(mutex(*m));
    }
    k
}

const ACQUIRED: Outcome = Outcome { status: 0, action: Action::Continue };
const BLOCKED: Outcome = Outcome { status: 0, action: Action::Block };
const REFUSED: Outcome = Outcome { status: DEADLOCK, action: Action::Continue };

#[test]
fn deadlock_code_is_minus_dead() {
    assert_eq!(DEADLOCK, -57005);
}

#[test]
fn new_blocking_mutex_is_free_and_unlabelled() {
    let m = MutexBlocking::new(7);
    assert_eq!(m.id, 0);
    assert!(!m.inner.locked);
    assert_eq!(m.inner.owner, 7);
    assert!(m.inner.wait_queue.is_empty());
}

#[test]
fn lock_on_free_mutex_makes_caller_owner() {
    let mut k = kernel(&[10, 11], &[1]);
    assert_eq!(MutexBlocking::lock(&mut k, 1, 10), ACQUIRED);
    assert!(k.mutexes[0].inner.locked);
    assert_eq!(k.mutexes[0].inner.owner, 10);
    assert_eq!(k.tasks[0].block_mutex_list, vec![Some(1)]);
    assert!(k.tasks[1].block_mutex_list.is_empty());
}

#[test]
fn relock_by_owner_is_refused_without_blocking() {
    let mut k = kernel(&[10], &[1]);
    assert_eq!(MutexBlocking::lock(&mut k, 1, 10), ACQUIRED);
    assert_eq!(MutexBlocking::lock(&mut k, 1, 10), REFUSED);
    assert!(k.mutexes[0].inner.wait_queue.is_empty());
    assert_eq!(k.mutexes[0].inner.owner, 10);
    assert_eq!(k.tasks[0].block_mutex_list, vec![Some(1)]);
}

#[test]
fn contended_lock_blocks_and_queues_caller() {
    let mut k = kernel(&[10, 11], &[1]);
    assert_eq!(MutexBlocking::lock(&mut k, 1, 10), ACQUIRED);
    assert_eq!(MutexBlocking::lock(&mut k, 1, 11), BLOCKED);
    assert_eq!(k.mutexes[0].inner.owner, 10);
    assert_eq!(k.mutexes[0].inner.wait_queue.iter().copied().collect::<Vec<_>>(), vec![11]);
    assert_eq!(k.tasks[1].block_mutex_list, vec![Some(1)]);
}

#[test]
fn two_task_cycle_is_refused() {
    let mut k = kernel(&[10, 11], &[1, 2]);
    assert_eq!(MutexBlocking::lock(&mut k, 1, 10), ACQUIRED);
    assert_eq!(MutexBlocking::lock(&mut k, 2, 11), ACQUIRED);
    assert_eq!(MutexBlocking::lock(&mut k, 2, 10), BLOCKED);
    let before = format!("{:?}", k);
    assert_eq!(MutexBlocking::lock(&mut k, 1, 11), REFUSED);
    assert_eq!(format!("{:?}", k), before);
}

#[test]
fn three_task_cycle_is_refused() {
    let mut k = kernel(&[10, 11, 12], &[1, 2, 3]);
    assert_eq!(MutexBlocking::lock(&mut k, 1, 10), ACQUIRED);
    assert_eq!(MutexBlocking::lock(&mut k, 2, 11), ACQUIRED);
    assert_eq!(MutexBlocking::lock(&mut k, 3, 12), ACQUIRED);
    assert_eq!(MutexBlocking::lock(&mut k, 2, 10), BLOCKED);
    assert_eq!(MutexBlocking::lock(&mut k, 3, 11), BLOCKED);
    assert_eq!(MutexBlocking::lock(&mut k, 1, 12), REFUSED);
}

#[test]
fn disjoint_mutexes_are_never_refused() {
    let mut k = kernel(&[10, 11, 12], &[1, 2, 3]);
    assert_eq!(MutexBlocking::lock(&mut k, 1, 10), ACQUIRED);
    assert_eq!(MutexBlocking::lock(&mut k, 2, 11), ACQUIRED);
    assert_eq!(MutexBlocking::lock(&mut k, 3, 12), ACQUIRED);
}

#[test]
fn waiting_without_a_cycle_is_not_refused() {
    let mut k = kernel(&[10, 11, 12], &[1, 2]);
    assert_eq!(MutexBlocking::lock(&mut k, 1, 10), ACQUIRED);
    assert_eq!(MutexBlocking::lock(&mut k, 2, 10), ACQUIRED);
    assert_eq!(MutexBlocking::lock(&mut k, 1, 11), BLOCKED);
    assert_eq!(MutexBlocking::lock(&mut k, 2, 12), BLOCKED);
}

#[test]
fn unlock_hands_over_in_queue_order() {
    let mut k = kernel(&[10, 11, 12, 13], &[1]);
    assert_eq!(MutexBlocking::lock(&mut k, 1, 10), ACQUIRED);
    assert_eq!(MutexBlocking::lock(&mut k, 1, 11), BLOCKED);
    assert_eq!(MutexBlocking::lock(&mut k, 1, 12), BLOCKED);
    assert_eq!(MutexBlocking::lock(&mut k, 1, 13), BLOCKED);
    assert_eq!(MutexBlocking::unlock(&mut k, 1, 1, 10), Action::Wake(11));
    assert!(k.mutexes[0].inner.locked);
    assert_eq!(k.mutexes[0].inner.owner, 11);
    assert_eq!(MutexBlocking::unlock(&mut k, 1, 1, 11), Action::Wake(12));
    assert_eq!(k.mutexes[0].inner.owner, 12);
    assert_eq!(MutexBlocking::unlock(&mut k, 1, 1, 12), Action::Wake(13));
    assert_eq!(k.mutexes[0].inner.owner, 13);
    assert!(k.mutexes[0].inner.wait_queue.is_empty());
    assert_eq!(MutexBlocking::unlock(&mut k, 1, 1, 13), Action::Continue);
    assert!(!k.mutexes[0].inner.locked);
}

#[test]
fn unlock_vacates_every_matching_slot_of_the_caller() {
    let mut k = kernel(&[10], &[1, 2]);
    k.tasks[0].block_mutex_list = vec![Some(1), Some(2), None, Some(1)];
    k.mutexes[0].inner.locked = true;
    k.mutexes[0].inner.owner = 10;
    assert_eq!(MutexBlocking::unlock(&mut k, 1, 1, 10), Action::Continue);
    assert_eq!(k.tasks[0].block_mutex_list, vec![None, Some(2), None, None]);
    assert!(!k.mutexes[0].inner.locked);
}

#[test]
fn set_id_relabels_the_named_mutex() {
    let mut k = Kernel::new();
    k.mutexes.push(MutexBlocking::new(0));
    MutexBlocking::set_id(&mut k, 0, 5);
    assert_eq!(k.mutexes[0].id, 5);
    assert_eq!(k.find_mutex(5), Some(0));
    assert_eq!(k.find_mutex(0), None);
}

#[test]
fn an_id_names_the_first_entry_that_carries_it() {
    let k = kernel(&[10, 11, 10], &[4, 4]);
    assert_eq!(k.find_task(10), Some(0));
    assert_eq!(k.find_task(11), Some(1));
    assert_eq!(k.find_task(12), None);
    assert_eq!(k.find_mutex(4), Some(0));
    assert_eq!(k.find_semaphore(4), None);
}

#[test]
fn has_circle_keeps_off_what_is_marked() {
    let mut k = kernel(&[10, 11], &[1, 2]);
    assert_eq!(MutexBlocking::lock(&mut k, 1, 10), ACQUIRED);
    assert_eq!(MutexBlocking::lock(&mut k, 2, 11), ACQUIRED);
    assert_eq!(MutexBlocking::lock(&mut k, 2, 10), BLOCKED);
    let mut mutex_vis = Vec::new();
    let mut task_vis = Vec::new();
    assert!(MutexBlocking::has_circle(&k, 1, 11, &mut mutex_vis, &mut task_vis));
    assert_eq!(&mutex_vis[..1], &[1]);
    let mut mutex_vis = vec![2];
    let mut task_vis = Vec::new();
    assert!(!MutexBlocking::has_circle(&k, 1, 11, &mut mutex_vis, &mut task_vis));
    assert_eq!(mutex_vis, vec![2, 1]);
    assert_eq!(task_vis, vec![10]);
    let mut mutex_vis = Vec::new();
    let mut task_vis = vec![10];
    assert!(!MutexBlocking::has_circle(&k, 1, 11, &mut mutex_vis, &mut task_vis));
    let mut mutex_vis = vec![1];
    let mut task_vis = Vec::new();
    assert!(!MutexBlocking::has_circle(&k, 1, 11, &mut mutex_vis, &mut task_vis));
    assert_eq!(mutex_vis, vec![1]);
}

#[test]
fn has_circle_passes_over_a_listed_id_that_names_nothing() {
    let mut k = kernel(&[10, 11], &[1]);
    k.tasks[0].block_mutex_list = vec![Some(99), None, Some(1)];
    k.mutexes[0].inner.locked = true;
    k.mutexes[0].inner.owner = 10;
    let mut mutex_vis = Vec::new();
    let mut task_vis = Vec::new();
    assert!(!MutexBlocking::has_circle(&k, 1, 11, &mut mutex_vis, &mut task_vis));
    assert_eq!(mutex_vis, vec![1]);
    assert_eq!(task_vis, vec![10]);
    assert!(!MutexBlocking::has_circle(&k, 42, 11, &mut Vec::new(), &mut Vec::new()));
}

#[test]
fn spin_lock_takes_a_free_mutex_and_yields_on_a_held_one() {
    let mut k = Kernel::new();
    k.spins.push(MutexSpin::new());
    assert!(!k.spins[0].locked);
    assert_eq!(MutexSpin::lock(&mut k, 0, 10), ACQUIRED);
    assert!(k.spins[0].locked);
    assert_eq!(MutexSpin::lock(&mut k, 0, 11), Outcome { status: 0, action: Action::Yield });
    assert!(k.spins[0].locked);
    assert_eq!(MutexSpin::unlock(&mut k, 0, 0, 10), Action::Continue);
    assert!(!k.spins[0].locked);
    MutexSpin::set_id(&mut k, 0, 9);
    assert_eq!(MutexSpin::lock(&mut k, 0, 11), ACQUIRED);
}
