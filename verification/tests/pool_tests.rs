use workpool::message::Message;
use workpool::pool::ThreadPool;
use workpool::worker::WorkerState;

fn sorted(mut v: Vec<u64>) -> Vec<u64> {
    v.sort();
    v
}

#[test]
fn new_pool_starts_idle() {
    let pool = ThreadPool::new(3);
    assert!(pool.live);
    assert_eq!(pool.workers.len(), 3);
    assert_eq!(pool.queue.len(), 0);
    assert_eq!(pool.completed.len(), 0);
    for (i, w) in pool.workers.iter().enumerate() {
        assert_eq!(w.id, i);
        assert_eq!(w.state, WorkerState::Waiting);
        assert!(w.handle.is_some());
        assert_eq!(w.handle.unwrap().worker_id, i);
    }
}

#[test]
fn teardown_terminates_every_worker() {
    for n in 1..=8 {
        let mut pool = ThreadPool::new(n);
        pool.shutdown();
        assert!(!pool.live);
        assert_eq!(pool.queue.len(), 0);
        assert_eq!(pool.workers.len(), n);
        for w in pool.workers.iter() {
            assert_eq!(w.state, WorkerState::Terminated);
            assert!(w.handle.is_none());
        }
    }
}

#[test]
fn teardown_runs_every_submitted_task_once() {
    let mut pool = ThreadPool::new(3);
    pool.execute(10);
    pool.execute(20);
    pool.execute(30);
    assert_eq!(pool.queue.len(), 3);
    assert_eq!(pool.completed.len(), 0);
    pool.shutdown();
    assert_eq!(sorted(pool.completed.clone()), vec![10, 20, 30]);
    for w in pool.workers.iter() {
        assert_eq!(w.state, WorkerState::Terminated);
    }
}

#[test]
fn single_worker_runs_tasks_in_submission_order() {
    let mut pool = ThreadPool::new(1);
    for t in 1..=5 {
        pool.execute(t);
    }
    pool.shutdown();
    assert_eq!(pool.completed, vec![1, 2, 3, 4, 5]);
}

#[test]
fn single_worker_serializes_two_tasks() {
    let mut pool = ThreadPool::new(1);
    pool.execute(1);
    pool.execute(2);
    // the one worker takes the first task; while it runs, the second task's
    // effect cannot appear, because a worker mid-task cannot receive
    pool.worker_receive(0);
    assert_eq!(pool.workers[0].state, WorkerState::Executing(1));
    assert!(!pool.completed.contains(&2));
    // the first task returns; only then can the second be taken and run
    pool.worker_finish(0);
    assert_eq!(pool.completed, vec![1]);
    pool.worker_receive(0);
    assert_eq!(pool.workers[0].state, WorkerState::Executing(2));
    pool.worker_finish(0);
    assert_eq!(pool.completed, vec![1, 2]);
    pool.shutdown();
    assert_eq!(pool.completed, vec![1, 2]);
}

#[test]
fn teardown_twice_joins_each_handle_once() {
    let mut pool = ThreadPool::new(2);
    pool.execute(9);
    pool.shutdown();
    assert_eq!(pool.completed, vec![9]);
    for w in pool.workers.iter() {
        assert!(w.handle.is_none());
    }
    // a second teardown finds every handle already consumed and does nothing
    pool.shutdown();
    assert!(!pool.live);
    assert_eq!(pool.completed, vec![9]);
    assert_eq!(pool.workers.len(), 2);
    for w in pool.workers.iter() {
        assert_eq!(w.state, WorkerState::Terminated);
        assert!(w.handle.is_none());
    }
}

#[test]
fn four_workers_four_tasks_all_recorded() {
    let mut pool = ThreadPool::new(4);
    for t in [11, 22, 33, 44] {
        pool.execute(t);
    }
    pool.shutdown();
    // teardown returned, so every task has finished: all four ids are in the
    // record, each exactly once, and every worker has exited
    assert_eq!(sorted(pool.completed.clone()), vec![11, 22, 33, 44]);
    assert_eq!(pool.workers.len(), 4);
    for w in pool.workers.iter() {
        assert_eq!(w.state, WorkerState::Terminated);
        assert!(w.handle.is_none());
    }
}

#[test]
fn tasks_spread_over_idle_workers() {
    let mut pool = ThreadPool::new(2);
    pool.execute(5);
    pool.execute(6);
    // each message goes to exactly one worker: two idle workers take one each
    pool.worker_receive(0);
    pool.worker_receive(1);
    assert_eq!(pool.workers[0].state, WorkerState::Executing(5));
    assert_eq!(pool.workers[1].state, WorkerState::Executing(6));
    assert_eq!(pool.queue.len(), 0);
    pool.worker_finish(1);
    pool.worker_finish(0);
    assert_eq!(pool.completed, vec![6, 5]);
    pool.shutdown();
    assert_eq!(sorted(pool.completed.clone()), vec![5, 6]);
}

#[test]
fn submit_only_queues_the_task() {
    let mut pool = ThreadPool::new(2);
    pool.execute(77);
    // the task was handed to the dispatch queue, not run
    assert_eq!(pool.queue, vec![Message::NewTask(77)]);
    assert_eq!(pool.completed.len(), 0);
    assert_eq!(pool.workers[0].state, WorkerState::Waiting);
    assert_eq!(pool.workers[1].state, WorkerState::Waiting);
    pool.shutdown();
    assert_eq!(pool.completed, vec![77]);
}

#[test]
fn teardown_with_a_task_mid_execution() {
    let mut pool = ThreadPool::new(2);
    pool.execute(1);
    pool.execute(2);
    pool.execute(3);
    pool.worker_receive(0);
    assert_eq!(pool.workers[0].state, WorkerState::Executing(1));
    // teardown waits for the running task as well as the queued ones
    pool.shutdown();
    assert_eq!(sorted(pool.completed.clone()), vec![1, 2, 3]);
    for w in pool.workers.iter() {
        assert_eq!(w.state, WorkerState::Terminated);
        assert!(w.handle.is_none());
    }
}
