use vstd::prelude::*;
use vstd::multiset::Multiset;
use crate::message::Message;
use crate::message::task_ids;
use crate::message::terminate_count;
use crate::message::tasks_before_terminates;
use crate::message::lemma_task_ids_push;
use crate::message::lemma_task_ids_pop_task;
use crate::message::lemma_terminate_count_push;
use crate::message::lemma_no_terminates_count;
use crate::message::lemma_terminate_prefix;
use crate::message::lemma_tasks_before_terminates_drop_first;
use crate::message::lemma_tasks_before_terminates_push;
use crate::worker::Worker;
use crate::worker::WorkerState;
use crate::worker::ThreadHandle;
use crate::worker::running_task_ms;
use crate::worker::running_task_seq;
use crate::worker::executing_ms;
use crate::worker::lemma_executing_ms_update;
use crate::worker::lemma_executing_ms_idle;

verus! {

/// The worker pool: the sending side of the dispatch queue and the full set of
/// workers. Submitted tasks are carried by the ids their submitters chose;
/// the record of completed ids stands for the tasks' observable effects.
pub struct ThreadPool {
    /// Messages sent but not yet received, in send order.
    pub queue: Vec<Message>,
    /// One worker per pool slot.
    pub workers: Vec<Worker>,
    /// Ids of the tasks that have run, in completion order.
    pub completed: Vec<u64>,
    /// True until teardown: the pool accepts submissions and every worker is
    /// still running its loop.
    pub live: bool,
}

impl ThreadPool {
    /// Every reachable pool satisfies this. While the pool is live no poison
    /// pill is in flight, no worker has exited and every join handle is still
    /// in its slot; once torn down the queue is drained, every worker has
    /// exited and every handle has been consumed by a join.
    pub open spec fn wf(self) -> bool {
        &&& self.workers@.len() >= 1
        &&& forall|i: int|
            0 <= i < self.workers@.len() ==> (#[trigger] self.workers@[i]).id == i
        &&& self.live ==> {
            &&& forall|i: int|
                0 <= i < self.queue@.len() ==> (#[trigger] self.queue@[i]) is NewTask
            &&& forall|i: int|
                0 <= i < self.workers@.len() ==> !((#[trigger] self.workers@[i]).state
                    is Terminated) && self.workers@[i].handle == Some(
                    ThreadHandle { worker_id: i as usize },
                )
        }
        &&& !self.live ==> {
            &&& self.queue@.len() == 0
            &&& forall|i: int|
                0 <= i < self.workers@.len() ==> (#[trigger] self.workers@[i]).state is Terminated
                    && self.workers@[i].handle is None
        }
    }

    /// The tasks handed to the pool that have not completed: those still
    /// queued and those a worker is running, with multiplicity.
    pub open spec fn in_flight_ms(self) -> Multiset<u64> {
        task_ids(self.queue@).to_multiset().add(executing_ms(self.workers@))
    }

    /// The same for a pool of a single worker, where the in-flight tasks form
    /// a sequence: the task the worker may be running, then the queued ones.
    pub open spec fn single_in_flight(self) -> Seq<u64>
        recommends
            self.workers@.len() == 1,
    {
        running_task_seq(self.workers@[0]) + task_ids(self.queue@)
    }

    /// Construct a pool of `size` workers, each waiting on the shared queue.
    /// A pool of zero workers could never make progress, so a zero size is a
    /// configuration error ruled out here rather than defaulted away.
    pub fn new(size: usize) -> (pool: ThreadPool)
        requires
            1 <= size,
        ensures
            pool.wf(),
            pool.live,
            pool.workers@.len() == size,
            forall|i: int| 0 <= i < size ==> (#[trigger] pool.workers@[i]).state is Waiting,
            pool.queue@.len() == 0,
            pool.completed@.len() == 0,
            pool.in_flight_ms() == Multiset::<u64>::empty(),
    {
        let mut workers: Vec<Worker> = Vec::new();
        let mut id: usize = 0;
        while id < size
            invariant
                id <= size,
                workers@.len() == id,
                forall|i: int|
                    0 <= i < id ==> (#[trigger] workers@[i]).id == i && workers@[i].state
                        is Waiting && workers@[i].handle == Some(
                        ThreadHandle { worker_id: i as usize },
                    ),
            decreases size - id,
        {
            workers.push(Worker::new(id));
            id += 1;
        }
        let pool = ThreadPool { queue: Vec::new(), workers, completed: Vec::new(), live: true };
        proof {
            broadcast use vstd::seq_lib::group_to_multiset_ensures;
            broadcast use vstd::multiset::group_multiset_axioms;

            lemma_executing_ms_idle(pool.workers@);
            assert(task_ids(pool.queue@) == Seq::<u64>::empty());
            assert(forall|t: u64| Seq::<u64>::empty().to_multiset().count(t) == 0);
            assert(pool.in_flight_ms() =~= Multiset::<u64>::empty());
        }
        pool
    }

    /// Submit a task: wrap its id in a message and enqueue it. This only hands
    /// the task to the dispatch queue; it does not wait for it to run.
    /// Submission needs a live pool: once teardown has completed, every worker
    /// has exited and nothing could ever receive the message, so submitting is
    /// a caller error that this precondition rejects.
    pub fn execute(&mut self, task: u64)
        requires
            old(self).wf(),
            old(self).live,
        ensures
            final(self).wf(),
            final(self).live,
            final(self).workers == old(self).workers,
            final(self).completed == old(self).completed,
            final(self).queue@ == old(self).queue@.push(Message::NewTask(task)),
            task_ids(final(self).queue@) == task_ids(old(self).queue@).push(task),
            final(self).in_flight_ms() == old(self).in_flight_ms().insert(task),
    {
        self.queue.push(Message::NewTask(task));
        proof {
            broadcast use vstd::seq_lib::group_to_multiset_ensures;
            broadcast use vstd::multiset::group_multiset_axioms;

            lemma_task_ids_push(old(self).queue@, Message::NewTask(task));
            assert(self.in_flight_ms() =~= old(self).in_flight_ms().insert(task));
            assert(forall|i: int|
                0 <= i < self.queue@.len() ==> (#[trigger] self.queue@[i]) is NewTask);
        }
    }

    /// One idle worker wins the receiver's guard and takes the message at the
    /// front of the queue: the message leaves the queue as exactly this worker
    /// takes it. While the pool is live the message can only be a task, and
    /// the worker turns to executing it. A worker mid-task cannot receive.
    pub fn worker_receive(&mut self, w: usize)
        requires
            old(self).wf(),
            old(self).live,
            w < old(self).workers@.len(),
            old(self).workers@[w as int].state is Waiting,
            old(self).queue@.len() > 0,
        ensures
            final(self).wf(),
            final(self).live,
            final(self).completed == old(self).completed,
            final(self).queue@ == old(self).queue@.drop_first(),
            old(self).queue@[0] matches Message::NewTask(t) && final(self).workers@ == old(self).workers@.update(
                w as int,
                Worker {
                    id: w,
                    state: WorkerState::Executing(t),
                    handle: old(self).workers@[w as int].handle,
                },
            ),
            final(self).in_flight_ms() == old(self).in_flight_ms(),
            old(self).workers@.len() == 1 ==> final(self).single_in_flight() == old(self).single_in_flight(),
    {
        let ghost q0 = self.queue@;
        let ghost ws0 = self.workers@;
        let m = self.queue.remove(0);
        let mut wk = self.workers[w];
        wk.receive(m);
        self.workers.set(w, wk);
        proof {
            broadcast use vstd::seq_lib::group_to_multiset_ensures;
            broadcast use vstd::multiset::group_multiset_axioms;

            assert(q0[0] is NewTask);
            let t = q0[0]->0;
            assert(self.queue@ =~= q0.drop_first());
            lemma_task_ids_pop_task(q0, t);
            lemma_executing_ms_update(ws0, w as int, wk);
            assert(running_task_ms(ws0[w as int]) == Multiset::<u64>::empty());
            assert(running_task_ms(wk) == Multiset::<u64>::empty().insert(t));
            assert(executing_ms(self.workers@).add(Multiset::<u64>::empty()) =~= executing_ms(
                self.workers@,
            ));
            assert(executing_ms(self.workers@) =~= executing_ms(ws0).insert(t));
            assert(self.in_flight_ms() =~= old(self).in_flight_ms());
            // the pool stays well formed: the rest of the queue is still all
            // tasks, and the chosen worker is now executing, not terminated
            assert(forall|i: int|
                0 <= i < self.queue@.len() ==> (#[trigger] self.queue@[i]) == q0[i + 1]);
            if ws0.len() == 1 {
                assert(running_task_seq(ws0[0]) =~= Seq::<u64>::empty());
                assert(self.single_in_flight() =~= old(self).single_in_flight());
            }
        }
    }

    /// The task a worker was running returns: its id joins the record of
    /// completed tasks and the worker goes back to waiting on the queue.
    pub fn worker_finish(&mut self, w: usize)
        requires
            old(self).wf(),
            w < old(self).workers@.len(),
            old(self).workers@[w as int].state is Executing,
        ensures
            final(self).wf(),
            final(self).live == old(self).live,
            final(self).queue == old(self).queue,
            old(self).workers@[w as int].state matches WorkerState::Executing(t) && final(self).completed@ == old(self).completed@.push(t) && final(self).workers@ == old(self).workers@.update(
                w as int,
                Worker {
                    id: w,
                    state: WorkerState::Waiting,
                    handle: old(self).workers@[w as int].handle,
                },
            ),
            final(self).in_flight_ms() == old(self).in_flight_ms().remove(
                old(self).workers@[w as int].state->0,
            ),
            final(self).completed@.to_multiset().add(final(self).in_flight_ms()) == old(self).completed@.to_multiset().add(old(self).in_flight_ms()),
            old(self).workers@.len() == 1 ==> final(self).completed@ + final(self).single_in_flight() == old(self).completed@ + old(self).single_in_flight(),
    {
        let ghost ws0 = self.workers@;
        let mut wk = self.workers[w];
        let t = wk.finish();
        self.workers.set(w, wk);
        self.completed.push(t);
        proof {
            broadcast use vstd::seq_lib::group_to_multiset_ensures;
            broadcast use vstd::multiset::group_multiset_axioms;

            lemma_executing_ms_update(ws0, w as int, wk);
            assert(running_task_ms(ws0[w as int]) == Multiset::<u64>::empty().insert(t));
            assert(running_task_ms(wk) == Multiset::<u64>::empty());
            assert(executing_ms(self.workers@).add(Multiset::<u64>::empty().insert(t))
                =~= executing_ms(ws0).add(Multiset::<u64>::empty()));
            assert(executing_ms(ws0).add(Multiset::<u64>::empty()) =~= executing_ms(ws0));
            assert(executing_ms(ws0).count(t) >= 1);
            assert(executing_ms(self.workers@) =~= executing_ms(ws0).remove(t));
            assert(self.in_flight_ms() =~= old(self).in_flight_ms().remove(t));
            assert(self.completed@.to_multiset().add(self.in_flight_ms()) =~= old(self).completed@.to_multiset().add(old(self).in_flight_ms()));
            if ws0.len() == 1 {
                assert(running_task_seq(ws0[0]) =~= seq![t]);
                assert(running_task_seq(self.workers@[0]) =~= Seq::<u64>::empty());
                assert(self.completed@ + self.single_in_flight() =~= old(self).completed@ + old(self).single_in_flight());
            }
        }
    }

    /// Tear the pool down with the two-pass protocol: first put one poison
    /// pill per worker on the queue — all of them before any wait begins, so
    /// that no wait can block on a worker whose pill a peer raced ahead and
    /// consumed — then join every worker. A join returns only once its
    /// worker's loop has exited, so each worker first works through the
    /// messages that reach it until a pill arrives. Every task accepted
    /// before teardown runs, each exactly once, before teardown returns; a
    /// pool of a single worker runs them in submission order. Tearing down a
    /// pool that is already down changes nothing: every handle was consumed
    /// by the first teardown, and no handle is ever joined twice.
    pub fn shutdown(&mut self)
        requires
            old(self).wf(),
        ensures
            final(self).wf(),
            !final(self).live,
            final(self).workers@.len() == old(self).workers@.len(),
            final(self).queue@.len() == 0,
            forall|i: int|
                0 <= i < final(self).workers@.len() ==> (#[trigger] final(self).workers@[i]).state
                    is Terminated && final(self).workers@[i].handle is None,
            old(self).live ==> final(self).completed@.to_multiset() == old(
                self,
            ).completed@.to_multiset().add(old(self).in_flight_ms()),
            old(self).live && old(self).workers@.len() == 1 ==> final(self).completed@ == old(
                self,
            ).completed@ + old(self).single_in_flight(),
            !old(self).live ==> *final(self) == *old(self),
    {
        if !self.live {
            return ;
        }
        self.live = false;
        let n = self.workers.len();
        let ghost base_ms = old(self).completed@.to_multiset().add(
            task_ids(old(self).queue@).to_multiset(),
        ).add(executing_ms(old(self).workers@));
        let ghost base_seq = old(self).completed@ + running_task_seq(old(self).workers@[0])
            + task_ids(old(self).queue@);
        proof {
            // at teardown's start the queue holds tasks alone
            assert(forall|i: int|
                0 <= i < self.queue@.len() ==> !((#[trigger] self.queue@[i]) is Terminate));
            lemma_no_terminates_count(self.queue@);
            assert(tasks_before_terminates(self.queue@));
        }
        // first pass: one pill per worker, all sent before any wait begins
        let mut k: usize = 0;
        while k < n
            invariant
                k <= n,
                !self.live,
                n == self.workers@.len(),
                self.workers@ == old(self).workers@,
                self.completed@ == old(self).completed@,
                task_ids(self.queue@) == task_ids(old(self).queue@),
                terminate_count(self.queue@) == k,
                tasks_before_terminates(self.queue@),
            decreases n - k,
        {
            proof {
                lemma_task_ids_push(self.queue@, Message::Terminate);
                lemma_terminate_count_push(self.queue@, Message::Terminate);
                lemma_tasks_before_terminates_push(self.queue@);
            }
            self.queue.push(Message::Terminate);
            k += 1;
        }
        // second pass: join every worker. The join of worker w blocks until
        // that worker's thread finishes, which it does once its pill arrives.
        let mut w: usize = 0;
        while w < n
            invariant
                w <= n,
                !self.live,
                n == self.workers@.len(),
                forall|i: int| 0 <= i < n ==> (#[trigger] self.workers@[i]).id == i,
                forall|i: int|
                    0 <= i < w ==> (#[trigger] self.workers@[i]).state is Terminated
                        && self.workers@[i].handle is None,
                forall|i: int|
                    w <= i < n ==> !((#[trigger] self.workers@[i]).state is Terminated)
                        && self.workers@[i].handle == Some(ThreadHandle { worker_id: i as usize }),
                terminate_count(self.queue@) == n - w,
                tasks_before_terminates(self.queue@),
                terminate_count(self.queue@) == 0 ==> self.queue@.len() == 0,
                self.completed@.to_multiset().add(task_ids(self.queue@).to_multiset()).add(
                    executing_ms(self.workers@),
                ) == base_ms,
                n == 1 ==> self.completed@ + running_task_seq(self.workers@[0]) + task_ids(
                    self.queue@,
                ) == base_seq,
            decreases n - w,
        {
            // worker w keeps taking messages and running tasks until its pill
            // arrives and its loop exits
            loop
                invariant
                    w < n,
                    !self.live,
                    n == self.workers@.len(),
                    forall|i: int| 0 <= i < n ==> (#[trigger] self.workers@[i]).id == i,
                    forall|i: int|
                        0 <= i < w ==> (#[trigger] self.workers@[i]).state is Terminated
                            && self.workers@[i].handle is None,
                    forall|i: int|
                        w < i < n ==> !((#[trigger] self.workers@[i]).state is Terminated)
                            && self.workers@[i].handle == Some(
                            ThreadHandle { worker_id: i as usize },
                        ),
                    self.workers@[w as int].handle == Some(ThreadHandle { worker_id: w }),
                    terminate_count(self.queue@) == (if self.workers@[w as int].state
                        is Terminated {
                        n - w - 1
                    } else {
                        n - w
                    }),
                    tasks_before_terminates(self.queue@),
                    terminate_count(self.queue@) == 0 ==> self.queue@.len() == 0,
                    self.completed@.to_multiset().add(task_ids(self.queue@).to_multiset()).add(
                        executing_ms(self.workers@),
                    ) == base_ms,
                    n == 1 ==> self.completed@ + running_task_seq(self.workers@[0]) + task_ids(
                        self.queue@,
                    ) == base_seq,
                ensures
                    self.workers@[w as int].state is Terminated,
                    !self.live,
                    n == self.workers@.len(),
                    forall|i: int| 0 <= i < n ==> (#[trigger] self.workers@[i]).id == i,
                    forall|i: int|
                        0 <= i < w ==> (#[trigger] self.workers@[i]).state is Terminated
                            && self.workers@[i].handle is None,
                    forall|i: int|
                        w < i < n ==> !((#[trigger] self.workers@[i]).state is Terminated)
                            && self.workers@[i].handle == Some(
                            ThreadHandle { worker_id: i as usize },
                        ),
                    self.workers@[w as int].handle == Some(ThreadHandle { worker_id: w }),
                    terminate_count(self.queue@) == n - w - 1,
                    tasks_before_terminates(self.queue@),
                    terminate_count(self.queue@) == 0 ==> self.queue@.len() == 0,
                    self.completed@.to_multiset().add(task_ids(self.queue@).to_multiset()).add(
                        executing_ms(self.workers@),
                    ) == base_ms,
                    n == 1 ==> self.completed@ + running_task_seq(self.workers@[0]) + task_ids(
                        self.queue@,
                    ) == base_seq,
                decreases 2 * self.queue@.len() + (if self.workers@[w as int].state is Executing {
                    1nat
                } else {
                    0nat
                }),
            {
                let st = self.workers[w].state;
                match st {
                    WorkerState::Terminated => {
                        break ;
                    },
                    WorkerState::Executing(_) => {
                        let ghost ws0 = self.workers@;
                        let ghost c0 = self.completed@;
                        let mut wk = self.workers[w];
                        let t = wk.finish();
                        self.workers.set(w, wk);
                        self.completed.push(t);
                        proof {
                            broadcast use vstd::seq_lib::group_to_multiset_ensures;
                            broadcast use vstd::multiset::group_multiset_axioms;

                            lemma_executing_ms_update(ws0, w as int, wk);
                            assert(running_task_ms(ws0[w as int]) == Multiset::<
                                u64,
                            >::empty().insert(t));
                            assert(running_task_ms(wk) == Multiset::<u64>::empty());
                            assert(executing_ms(self.workers@).add(
                                Multiset::<u64>::empty().insert(t),
                            ) =~= executing_ms(ws0).add(Multiset::<u64>::empty()));
                            assert(executing_ms(ws0).add(Multiset::<u64>::empty()) =~= executing_ms(
                                ws0,
                            ));
                            assert(self.completed@.to_multiset().add(
                                task_ids(self.queue@).to_multiset(),
                            ).add(executing_ms(self.workers@)) =~= c0.to_multiset().add(
                                task_ids(self.queue@).to_multiset(),
                            ).add(executing_ms(ws0)));
                            if n == 1 {
                                assert(running_task_seq(ws0[0]) =~= seq![t]);
                                assert(running_task_seq(self.workers@[0]) =~= Seq::<u64>::empty());
                                assert(self.completed@ + running_task_seq(self.workers@[0])
                                    + task_ids(self.queue@) =~= c0 + running_task_seq(ws0[0])
                                    + task_ids(self.queue@));
                            }
                        }
                    },
                    WorkerState::Waiting => {
                        proof {
                            if self.queue@.len() == 0 {
                                assert(terminate_count(self.queue@) == 0);
                            }
                        }
                        let ghost q0 = self.queue@;
                        let ghost ws0 = self.workers@;
                        let m = self.queue.remove(0);
                        let mut wk = self.workers[w];
                        wk.receive(m);
                        self.workers.set(w, wk);
                        proof {
                            broadcast use vstd::seq_lib::group_to_multiset_ensures;
                            broadcast use vstd::multiset::group_multiset_axioms;

                            assert(self.queue@ =~= q0.drop_first());
                            lemma_tasks_before_terminates_drop_first(q0);
                            lemma_executing_ms_update(ws0, w as int, wk);
                            assert(running_task_ms(ws0[w as int]) == Multiset::<u64>::empty());
                            match m {
                                Message::NewTask(t) => {
                                    lemma_task_ids_pop_task(q0, t);
                                    assert(terminate_count(q0) == terminate_count(self.queue@));
                                    assert(running_task_ms(wk) == Multiset::<u64>::empty().insert(
                                        t,
                                    ));
                                    assert(executing_ms(self.workers@).add(
                                        Multiset::<u64>::empty(),
                                    ) =~= executing_ms(self.workers@));
                                    assert(executing_ms(self.workers@) =~= executing_ms(ws0).insert(
                                        t,
                                    ));
                                    assert(self.completed@.to_multiset().add(
                                        task_ids(self.queue@).to_multiset(),
                                    ).add(executing_ms(self.workers@))
                                        =~= self.completed@.to_multiset().add(
                                        task_ids(q0).to_multiset(),
                                    ).add(executing_ms(ws0)));
                                    if n == 1 {
                                        assert(running_task_seq(ws0[0]) =~= Seq::<u64>::empty());
                                        assert(self.completed@ + running_task_seq(
                                            self.workers@[0],
                                        ) + task_ids(self.queue@) =~= self.completed@
                                            + running_task_seq(ws0[0]) + task_ids(q0));
                                    }
                                },
                                Message::Terminate => {
                                    assert(task_ids(q0) == task_ids(self.queue@));
                                    assert(terminate_count(q0) == 1 + terminate_count(
                                        self.queue@,
                                    ));
                                    if terminate_count(self.queue@) == 0 {
                                        lemma_terminate_prefix(q0);
                                    }
                                    assert(running_task_ms(wk) == Multiset::<u64>::empty());
                                    assert(executing_ms(self.workers@).add(
                                        Multiset::<u64>::empty(),
                                    ) =~= executing_ms(self.workers@));
                                    assert(executing_ms(self.workers@) =~= executing_ms(ws0));
                                    if n == 1 {
                                        assert(running_task_seq(ws0[0]) =~= Seq::<u64>::empty());
                                        assert(running_task_seq(self.workers@[0]) =~= Seq::<
                                            u64,
                                        >::empty());
                                    }
                                },
                            }
                        }
                    },
                }
            }
            // the worker's loop has exited: take the handle from its slot and
            // join the thread, consuming the handle exactly once
            let ghost ws1 = self.workers@;
            let mut wk = self.workers[w];
            let _ = wk.join();
            self.workers.set(w, wk);
            proof {
                broadcast use vstd::multiset::group_multiset_axioms;

                lemma_executing_ms_update(ws1, w as int, wk);
                assert(running_task_ms(ws1[w as int]) == Multiset::<u64>::empty());
                assert(running_task_ms(wk) == Multiset::<u64>::empty());
                assert(executing_ms(self.workers@).add(Multiset::<u64>::empty()) =~= executing_ms(
                    self.workers@,
                ));
                assert(executing_ms(ws1).add(Multiset::<u64>::empty()) =~= executing_ms(ws1));
                assert(executing_ms(self.workers@) =~= executing_ms(ws1));
                if n == 1 {
                    assert(running_task_seq(self.workers@[0]) =~= running_task_seq(ws1[0]));
                }
            }
            w += 1;
        }
        proof {
            broadcast use vstd::seq_lib::group_to_multiset_ensures;
            broadcast use vstd::multiset::group_multiset_axioms;

            // every pill was consumed, so the queue has fully drained and
            // nothing is running any more: the record holds every task
            assert(self.queue@.len() == 0);
            assert(task_ids(self.queue@) == Seq::<u64>::empty());
            assert(Seq::<u64>::empty().to_multiset().len() == 0);
            vstd::multiset::lemma_multiset_empty_len(Seq::<u64>::empty().to_multiset());
            lemma_executing_ms_idle(self.workers@);
            assert(self.completed@.to_multiset() =~= self.completed@.to_multiset().add(
                task_ids(self.queue@).to_multiset(),
            ).add(executing_ms(self.workers@)));
            assert(base_ms =~= old(self).completed@.to_multiset().add(old(self).in_flight_ms()));
            if n == 1 {
                assert(self.completed@ =~= self.completed@ + running_task_seq(self.workers@[0])
                    + task_ids(self.queue@));
                assert(base_seq =~= old(self).completed@ + old(self).single_in_flight());
            }
        }
    }
}

} // verus!
