use workpool::message::Message;
use workpool::worker::Worker;
use workpool::worker::WorkerState;

#[test]
fn fresh_worker_waits_with_its_handle() {
    let w = Worker::new(5);
    assert_eq!(w.id, 5);
    assert_eq!(w.state, WorkerState::Waiting);
    assert!(w.handle.is_some());
    assert_eq!(w.handle.unwrap().worker_id, 5);
}

#[test]
fn receiving_a_task_starts_executing_it() {
    let mut w = Worker::new(0);
    w.receive(Message::NewTask(42));
    assert_eq!(w.state, WorkerState::Executing(42));
    assert!(w.handle.is_some());
}

#[test]
fn finishing_reports_the_task_and_waits_again() {
    let mut w = Worker::new(0);
    w.receive(Message::NewTask(42));
    let t = w.finish();
    assert_eq!(t, 42);
    assert_eq!(w.state, WorkerState::Waiting);
}

#[test]
fn receiving_the_pill_terminates() {
    let mut w = Worker::new(1);
    w.receive(Message::Terminate);
    assert_eq!(w.state, WorkerState::Terminated);
    // the pill ends the loop but leaves the handle for the join
    assert!(w.handle.is_some());
}

#[test]
fn join_consumes_the_handle_at_most_once() {
    let mut w = Worker::new(1);
    w.receive(Message::Terminate);
    assert!(w.join());
    assert!(w.handle.is_none());
    assert!(!w.join());
    assert!(w.handle.is_none());
    assert_eq!(w.state, WorkerState::Terminated);
}
