use vstd::prelude::*;
use vstd::multiset::Multiset;
use crate::message::Message;

verus! {

/// The join handle of a worker's thread. It sits in an optional slot that is
/// taken at most once, so the thread can be joined at most once.
#[derive(Clone, Copy, PartialEq, Eq, Structural, Debug)]
pub struct ThreadHandle {
    pub worker_id: usize,
}

/// Where a worker stands in its receive-dispatch-execute loop.
#[derive(Clone, Copy, PartialEq, Eq, Structural, Debug)]
pub enum WorkerState {
    /// Blocked on the dispatch queue, ready to take the next message.
    Waiting,
    /// Running the task with this id on its own thread.
    Executing(u64),
    /// Received the poison pill; the loop has exited and the thread is done.
    Terminated,
}

/// One slot of the pool: a small id for diagnostics, the loop's state, and the
/// thread's join handle until a join consumes it.
#[derive(Clone, Copy, Debug)]
pub struct Worker {
    pub id: usize,
    pub state: WorkerState,
    pub handle: Option<ThreadHandle>,
}

/// The ids of the tasks this worker is running: one if it is executing, none
/// otherwise.
pub open spec fn running_task_ms(w: Worker) -> Multiset<u64> {
    match w.state {
        WorkerState::Executing(t) => Multiset::empty().insert(t),
        _ => Multiset::empty(),
    }
}

/// The same, as a sequence; useful where a pool has a single worker, so that
/// at most one task can be mid-execution.
pub open spec fn running_task_seq(w: Worker) -> Seq<u64> {
    match w.state {
        WorkerState::Executing(t) => seq![t],
        _ => Seq::empty(),
    }
}

/// The ids of the tasks a set of workers is running, over all workers.
pub open spec fn executing_ms(ws: Seq<Worker>) -> Multiset<u64>
    decreases ws.len(),
{
    if ws.len() == 0 {
        Multiset::empty()
    } else {
        running_task_ms(ws[0]).add(executing_ms(ws.drop_first()))
    }
}

/// Replacing one worker exchanges its running task, and no other, in the
/// multiset of executing tasks.
pub proof fn lemma_executing_ms_update(ws: Seq<Worker>, i: int, x: Worker)
    requires
        0 <= i < ws.len(),
    ensures
        executing_ms(ws.update(i, x)).add(running_task_ms(ws[i])) == executing_ms(ws).add(
            running_task_ms(x),
        ),
    decreases ws.len(),
{
    broadcast use vstd::multiset::group_multiset_axioms;

    if i == 0 {
        assert(ws.update(0, x)[0] == x);
        assert(ws.update(0, x).drop_first() =~= ws.drop_first());
        assert(running_task_ms(x).add(executing_ms(ws.drop_first())).add(running_task_ms(ws[0]))
            =~= running_task_ms(ws[0]).add(executing_ms(ws.drop_first())).add(running_task_ms(x)));
    } else {
        assert(ws.update(i, x)[0] == ws[0]);
        assert(ws.update(i, x).drop_first() =~= ws.drop_first().update(i - 1, x));
        lemma_executing_ms_update(ws.drop_first(), i - 1, x);
        assert(ws.drop_first()[i - 1] == ws[i]);
        assert(running_task_ms(ws[0]).add(executing_ms(ws.drop_first().update(i - 1, x))).add(
            running_task_ms(ws[i]),
        ) =~= running_task_ms(ws[0]).add(
            executing_ms(ws.drop_first().update(i - 1, x)).add(running_task_ms(ws[i])),
        ));
        assert(running_task_ms(ws[0]).add(
            executing_ms(ws.drop_first()).add(running_task_ms(x)),
        ) =~= running_task_ms(ws[0]).add(executing_ms(ws.drop_first())).add(running_task_ms(x)));
    }
}

/// Workers none of which is executing run nothing.
pub proof fn lemma_executing_ms_idle(ws: Seq<Worker>)
    requires
        forall|i: int| 0 <= i < ws.len() ==> !(#[trigger] ws[i].state is Executing),
    ensures
        executing_ms(ws) == Multiset::<u64>::empty(),
    decreases ws.len(),
{
    broadcast use vstd::multiset::group_multiset_axioms;

    if ws.len() > 0 {
        assert(forall|i: int|
            0 <= i < ws.drop_first().len() ==> #[trigger] ws.drop_first()[i] == ws[i + 1]);
        lemma_executing_ms_idle(ws.drop_first());
        assert(running_task_ms(ws[0]).add(Multiset::<u64>::empty()) =~= Multiset::<u64>::empty());
    }
}

impl Worker {
    /// A freshly spawned worker: waiting on the queue, its thread's handle in
    /// the slot, joined by nobody yet.
    pub fn new(id: usize) -> (w: Worker)
        ensures
            w.id == id,
            w.state is Waiting,
            w.handle == Some(ThreadHandle { worker_id: id }),
    {
        Worker { id, state: WorkerState::Waiting, handle: Some(ThreadHandle { worker_id: id }) }
    }

    /// Take one message off the queue: a task moves the worker to executing
    /// it, the poison pill ends its loop. A worker mid-task cannot receive.
    pub fn receive(&mut self, m: Message)
        requires
            old(self).state is Waiting,
        ensures
            final(self).id == old(self).id,
            final(self).handle == old(self).handle,
            final(self).state == (match m {
                Message::NewTask(t) => WorkerState::Executing(t),
                Message::Terminate => WorkerState::Terminated,
            }),
    {
        match m {
            Message::NewTask(t) => {
                self.state = WorkerState::Executing(t);
            },
            Message::Terminate => {
                self.state = WorkerState::Terminated;
            },
        }
    }

    /// The running task returns: the worker goes back to waiting and reports
    /// the id of the task it just completed.
    pub fn finish(&mut self) -> (t: u64)
        requires
            old(self).state is Executing,
        ensures
            old(self).state == WorkerState::Executing(t),
            final(self).id == old(self).id,
            final(self).handle == old(self).handle,
            final(self).state is Waiting,
    {
        let t = match self.state {
            WorkerState::Executing(t) => t,
            _ => 0,  // unreachable under the precondition
        };
        self.state = WorkerState::Waiting;
        t
    }

    /// Join the worker's thread: take the handle from its slot, once. A join
    /// completes only after the worker's loop has exited, and a slot already
    /// emptied by an earlier join is left alone, so no handle is joined twice.
    pub fn join(&mut self) -> (had_handle: bool)
        requires
            old(self).state is Terminated,
        ensures
            final(self).id == old(self).id,
            final(self).state == old(self).state,
            final(self).handle is None,
            had_handle == (old(self).handle is Some),
    {
        let taken = self.handle.take();
        taken.is_some()
    }
}

} // verus!
