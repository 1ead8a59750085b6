use single_player_game_physics::physics_tasks::{
    Finish, TaskPool, CLAIMED, COMPLETE, FREE, MAX_TASKS, MAX_WORKERS, PENDING,
};
use single_player_game_physics::shared::Port;
use single_player_game_physics::shared_pool::{Credit, PoolBlock, Wait, Work, POOL_WORDS};
use single_player_game_physics::words::{Order, SharedWords};

#[test]
fn new_pool_is_empty() {
    let pool = TaskPool::new();
    assert_eq!(pool.claim_counts(5), vec![0; 5]);
    assert_eq!(pool.claim_counts(100).len(), MAX_WORKERS);
    assert_eq!(pool.tasks.len(), MAX_TASKS);
    assert_eq!([FREE, PENDING, CLAIMED, COMPLETE], [0, 1, 2, 3]);
}

#[test]
fn task_goes_from_pending_to_complete() {
    let mut pool = TaskPool::new();
    assert_eq!(pool.enqueue_task(10, 20), Some(0));
    assert_eq!(pool.enqueue_task(11, 21), Some(1));
    assert_eq!(pool.sem, 2);
    assert_eq!(pool.claim_one(), Some(0));
    assert_eq!(pool.tasks[0].status, CLAIMED);
    assert_eq!(pool.claim_one(), Some(1));
    assert_eq!(pool.claim_one(), None);
    pool.complete(0, 3);
    pool.complete(1, 99);
    assert_eq!(pool.tasks[0].status, COMPLETE);
    assert_eq!(pool.claims[3], 1);
    assert_eq!(pool.claims[31], 1);
    assert!(pool.take_credit());
    assert!(pool.take_credit());
    assert!(!pool.take_credit());
}

#[test]
fn overflow_runs_inline() {
    let mut pool = TaskPool::new();
    for i in 0..MAX_TASKS {
        assert_eq!(pool.enqueue_task(1, 2), Some(i));
    }
    assert_eq!(pool.enqueue_task(1, 2), None);
    assert_eq!(pool.next_slot, 257);
    assert_eq!(pool.sem, 256);
    pool.reset();
    assert_eq!(pool.next_slot, 0);
    assert!(pool.tasks.iter().all(|t| t.status == FREE));
}

#[test]
fn waiter_helps_before_it_sleeps() {
    let mut pool = TaskPool::new();
    pool.enqueue_task(10, 20);
    pool.enqueue_task(11, 21);
    assert_eq!(pool.finish_task(None), Finish::Done);
    assert_eq!(pool.claim_one(), Some(0));
    assert_eq!(pool.finish_task(Some(0)), Finish::Help { index: 1, callback: 11, context: 21 });
    pool.complete(1, 0);
    assert_eq!(pool.finish_task(Some(0)), Finish::Sleep { status: CLAIMED });
    pool.complete(0, 1);
    assert_eq!(pool.finish_task(Some(0)), Finish::Done);
}

fn pool_memory() -> SharedWords {
    SharedWords::new(&vec![0u32; POOL_WORDS])
}

#[test]
fn shared_pool_runs_each_task_once() {
    let block = pool_memory();
    let mut stepping = Port::new(&block);
    let mut worker = Port::new(&block);
    let pool = PoolBlock { at: 0 };
    assert_eq!(pool.enqueue_task(&mut stepping, 7, 8), Some(0));
    assert_eq!(pool.enqueue_task(&mut stepping, 9, 10), Some(1));
    let mut ran = vec![];
    assert_eq!(pool.execute_one(&mut worker, 1, |cb, cx| ran.push((cb, cx))), Some(0));
    assert_eq!(pool.execute_one(&mut stepping, 0, |cb, cx| ran.push((cb, cx))), Some(1));
    assert_eq!(pool.execute_one(&mut worker, 1, |cb, cx| ran.push((cb, cx))), None);
    assert_eq!(ran, vec![(7, 8), (9, 10)]);
    assert_eq!(pool.claim_counts(&mut stepping, 3), vec![1, 1, 0]);
    assert_eq!(pool.claim_counts(&mut stepping, 50).len(), MAX_WORKERS);
    assert_eq!(stepping.load(pool.status_address(1), Order::Relaxed), COMPLETE);
    assert_eq!(pool.finish_task(&mut stepping, Some(0), |_, _| unreachable!()), Wait::Done);
    pool.reset(&mut stepping);
    assert_eq!(stepping.load(pool.status_address(0), Order::Relaxed), FREE);
    assert_eq!(stepping.load(0, Order::Relaxed), 0);
}

#[test]
fn task_is_claimed_while_it_runs() {
    let block = pool_memory();
    let mut port = Port::new(&block);
    let pool = PoolBlock { at: 0 };
    pool.enqueue_task(&mut port, 3, 4);
    let index = pool.execute_one(&mut port, 40, |callback, context| {
        let mut inner = Port::new(&block);
        assert_eq!((callback, context), (3, 4));
        assert_eq!(inner.load(pool.status_address(0), Order::Relaxed), CLAIMED);
        assert_eq!(pool.execute_one(&mut inner, 1, |_, _| unreachable!()), None);
    });
    assert_eq!(index, Some(0));
    assert_eq!(port.load(pool.status_address(0), Order::Relaxed), COMPLETE);
    assert_eq!(pool.claim_counts(&mut port, 32)[31], 1);
}

#[test]
fn shared_waiter_helps_and_sleeps() {
    let block = pool_memory();
    let mut port = Port::new(&block);
    let pool = PoolBlock { at: 0 };
    assert_eq!(pool.finish_task(&mut port, None, |_, _| unreachable!()), Wait::Done);
    pool.enqueue_task(&mut port, 1, 2);
    pool.enqueue_task(&mut port, 3, 4);
    let mut ran = vec![];
    assert_eq!(
        pool.finish_task(&mut port, Some(1), |cb, cx| ran.push((cb, cx))),
        Wait::Helped { index: 0 }
    );
    assert_eq!(
        pool.finish_task(&mut port, Some(1), |cb, cx| ran.push((cb, cx))),
        Wait::Helped { index: 1 }
    );
    assert_eq!(ran, vec![(1, 2), (3, 4)]);
    assert_eq!(pool.finish_task(&mut port, Some(1), |_, _| unreachable!()), Wait::Done);
    port.store(pool.status_address(1), Order::Relaxed, CLAIMED);
    assert_eq!(
        pool.finish_task(&mut port, Some(1), |_, _| unreachable!()),
        Wait::Sleep { status: CLAIMED }
    );
}

#[test]
fn credits_are_taken_once() {
    let block = pool_memory();
    let mut port = Port::new(&block);
    let pool = PoolBlock { at: 0 };
    assert_eq!(pool.take_credit(&mut port), Credit::Empty);
    pool.enqueue_task(&mut port, 1, 2);
    assert_eq!(pool.take_credit(&mut port), Credit::Taken);
    assert_eq!(pool.take_credit(&mut port), Credit::Empty);
}

#[test]
fn pool_worker_parks_drains_and_parks() {
    let block = pool_memory();
    let mut port = Port::new(&block);
    let pool = PoolBlock { at: 0 };
    let mut draining = false;
    let mut ran = vec![];
    assert_eq!(
        pool.next_work(&mut port, &mut draining, 2, |_, _| unreachable!()),
        Work::Sleep
    );
    pool.enqueue_task(&mut port, 5, 6);
    assert_eq!(
        pool.next_work(&mut port, &mut draining, 2, |_, _| unreachable!()),
        Work::Again
    );
    assert!(draining);
    assert_eq!(
        pool.next_work(&mut port, &mut draining, 2, |cb, cx| ran.push((cb, cx))),
        Work::Ran { index: 0 }
    );
    assert_eq!(ran, vec![(5, 6)]);
    assert_eq!(
        pool.next_work(&mut port, &mut draining, 2, |_, _| unreachable!()),
        Work::Again
    );
    assert!(!draining);
    assert_eq!(
        pool.next_work(&mut port, &mut draining, 2, |_, _| unreachable!()),
        Work::Sleep
    );
}

#[test]
fn shared_overflow_runs_inline() {
    let block = pool_memory();
    let mut port = Port::new(&block);
    let pool = PoolBlock { at: 0 };
    for i in 0..MAX_TASKS {
        assert_eq!(pool.enqueue_task(&mut port, 1, 2), Some(i));
    }
    assert_eq!(pool.enqueue_task(&mut port, 1, 2), None);
    assert_eq!(port.load(1, Order::Relaxed), 256);
    let mut ran = vec![];
    assert_eq!(pool.enqueue_or_run(&mut port, 5, 6, |cb, cx| ran.push((cb, cx))), None);
    assert_eq!(ran, vec![(5, 6)]);
    assert_eq!(port.load(1, Order::Relaxed), 256);
    pool.reset(&mut port);
    assert_eq!(pool.enqueue_or_run(&mut port, 5, 6, |_, _| unreachable!()), Some(0));
}

#[test]
fn port_runs_what_it_is_given() {
    let block = pool_memory();
    let mut port = Port::new(&block);
    let mut ran = vec![];
    port.run(|cb, cx| ran.push((cb, cx)), Some(3), 8, 9);
    assert_eq!(ran, vec![(8, 9)]);
}
