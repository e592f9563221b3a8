use vstd::prelude::*;
use vstd::multiset::Multiset;

verus! {

/// A control message on the dispatch queue: either a task to run, carried by
/// the id its submitter chose, or the poison pill that makes one worker exit.
#[derive(Clone, Copy, PartialEq, Eq, Structural, Debug)]
pub enum Message {
    NewTask(u64),
    Terminate,
}

/// The ids of the tasks a queue holds, in queue order; poison pills carry none.
pub open spec fn task_ids(q: Seq<Message>) -> Seq<u64>
    decreases q.len(),
{
    if q.len() == 0 {
        Seq::empty()
    } else {
        match q[0] {
            Message::NewTask(t) => seq![t] + task_ids(q.drop_first()),
            Message::Terminate => task_ids(q.drop_first()),
        }
    }
}

/// How many poison pills a queue holds.
pub open spec fn terminate_count(q: Seq<Message>) -> nat
    decreases q.len(),
{
    if q.len() == 0 {
        0
    } else {
        (if q[0] is Terminate {
            1nat
        } else {
            0nat
        }) + terminate_count(q.drop_first())
    }
}

/// No task message sits behind a poison pill. This is what a queue looks like
/// once teardown has begun: the pills were appended after every task.
pub open spec fn tasks_before_terminates(q: Seq<Message>) -> bool {
    forall|i: int, j: int|
        #![trigger q[i], q[j]]
        0 <= i <= j < q.len() && q[i] is Terminate ==> q[j] is Terminate
}

/// Appending a message adds its task id, if any, at the back of `task_ids`.
pub proof fn lemma_task_ids_push(q: Seq<Message>, m: Message)
    ensures
        task_ids(q.push(m)) == (match m {
            Message::NewTask(t) => task_ids(q).push(t),
            Message::Terminate => task_ids(q),
        }),
    decreases q.len(),
{
    reveal_with_fuel(task_ids, 3);
    if q.len() == 0 {
        assert(q.push(m)[0] == m);
        assert(q.push(m).drop_first() =~= Seq::<Message>::empty());
        assert(task_ids(q.push(m).drop_first()) == Seq::<u64>::empty());
        assert(task_ids(q) == Seq::<u64>::empty());
        match m {
            Message::NewTask(t) => {
                assert(task_ids(q.push(m)) == seq![t] + Seq::<u64>::empty());
                assert(seq![t] + Seq::<u64>::empty() =~= task_ids(q).push(t));
            },
            Message::Terminate => {},
        }
    } else {
        assert(q.push(m)[0] == q[0]);
        assert(q.push(m).drop_first() =~= q.drop_first().push(m));
        lemma_task_ids_push(q.drop_first(), m);
        match m {
            Message::NewTask(t) => {
                match q[0] {
                    Message::NewTask(s) => {
                        assert(task_ids(q.push(m)) == seq![s] + task_ids(q.drop_first()).push(t));
                        assert(seq![s] + task_ids(q.drop_first()).push(t) =~= (seq![s] + task_ids(
                            q.drop_first(),
                        )).push(t));
                    },
                    Message::Terminate => {
                        assert(task_ids(q.push(m)) == task_ids(q.drop_first()).push(t));
                    },
                }
            },
            Message::Terminate => {},
        }
    }
}

/// Appending a message raises `terminate_count` exactly when it is a pill.
pub proof fn lemma_terminate_count_push(q: Seq<Message>, m: Message)
    ensures
        terminate_count(q.push(m)) == terminate_count(q) + (if m is Terminate {
            1nat
        } else {
            0nat
        }),
    decreases q.len(),
{
    reveal_with_fuel(terminate_count, 3);
    if q.len() == 0 {
        assert(q.push(m)[0] == m);
        assert(q.push(m).drop_first() =~= Seq::<Message>::empty());
        assert(terminate_count(q.push(m).drop_first()) == 0);
        assert(terminate_count(q) == 0);
    } else {
        assert(q.push(m)[0] == q[0]);
        assert(q.push(m).drop_first() =~= q.drop_first().push(m));
        lemma_terminate_count_push(q.drop_first(), m);
    }
}

/// A queue of task messages alone holds no pill.
pub proof fn lemma_no_terminates_count(q: Seq<Message>)
    requires
        forall|i: int| 0 <= i < q.len() ==> !(#[trigger] q[i] is Terminate),
    ensures
        terminate_count(q) == 0,
    decreases q.len(),
{
    if q.len() > 0 {
        assert(forall|i: int|
            0 <= i < q.drop_first().len() ==> #[trigger] q.drop_first()[i] == q[i + 1]);
        lemma_no_terminates_count(q.drop_first());
    }
}

/// Once the front of a well-ordered queue is a pill, the whole queue is pills:
/// it carries no task and exactly as many pills as messages.
pub proof fn lemma_terminate_prefix(q: Seq<Message>)
    requires
        q.len() > 0,
        q[0] is Terminate,
        tasks_before_terminates(q),
    ensures
        terminate_count(q) == q.len(),
        task_ids(q) == Seq::<u64>::empty(),
    decreases q.len(),
{
    reveal_with_fuel(task_ids, 2);
    reveal_with_fuel(terminate_count, 2);
    if q.len() == 1 {
        assert(q.drop_first().len() == 0);
        assert(terminate_count(q.drop_first()) == 0);
        assert(task_ids(q.drop_first()) == Seq::<u64>::empty());
    } else {
        assert(q.drop_first()[0] == q[1]);
        assert(q[1] is Terminate);
        assert(tasks_before_terminates(q.drop_first())) by {
            assert(forall|i: int|
                0 <= i < q.drop_first().len() ==> #[trigger] q.drop_first()[i] == q[i + 1]);
        }
        lemma_terminate_prefix(q.drop_first());
    }
}

/// The multiset of a one-id sequence.
pub proof fn lemma_singleton_to_multiset(t: u64)
    ensures
        seq![t].to_multiset() == Multiset::<u64>::empty().insert(t),
{
    broadcast use vstd::seq_lib::group_to_multiset_ensures;
    broadcast use vstd::multiset::group_multiset_axioms;

    assert(seq![t] =~= Seq::<u64>::empty().push(t));
    assert(Seq::<u64>::empty().to_multiset().len() == 0);
    vstd::multiset::lemma_multiset_empty_len(Seq::<u64>::empty().to_multiset());
    assert(Seq::<u64>::empty().push(t).to_multiset() =~= Multiset::<u64>::empty().insert(t));
}

/// Taking a task message off the front of the queue takes its id, and no
/// other, out of the queued ids.
pub proof fn lemma_task_ids_pop_task(q: Seq<Message>, t: u64)
    requires
        q.len() > 0,
        q[0] == Message::NewTask(t),
    ensures
        task_ids(q) == seq![t] + task_ids(q.drop_first()),
        task_ids(q).to_multiset() == task_ids(q.drop_first()).to_multiset().insert(t),
{
    broadcast use vstd::multiset::group_multiset_axioms;

    assert(task_ids(q) == seq![t] + task_ids(q.drop_first()));
    vstd::seq_lib::lemma_multiset_commutative(seq![t], task_ids(q.drop_first()));
    lemma_singleton_to_multiset(t);
    assert(Multiset::<u64>::empty().insert(t).add(task_ids(q.drop_first()).to_multiset())
        =~= task_ids(q.drop_first()).to_multiset().insert(t));
}

/// Dropping the front of a queue keeps the tasks ahead of the pills.
pub proof fn lemma_tasks_before_terminates_drop_first(q: Seq<Message>)
    requires
        q.len() > 0,
        tasks_before_terminates(q),
    ensures
        tasks_before_terminates(q.drop_first()),
{
    assert(forall|i: int|
        0 <= i < q.drop_first().len() ==> #[trigger] q.drop_first()[i] == q[i + 1]);
}

/// Appending a pill keeps the tasks ahead of the pills.
pub proof fn lemma_tasks_before_terminates_push(q: Seq<Message>)
    requires
        tasks_before_terminates(q),
    ensures
        tasks_before_terminates(q.push(Message::Terminate)),
{
    assert(forall|i: int| 0 <= i < q.len() ==> #[trigger] q.push(Message::Terminate)[i] == q[i]);
    assert(q.push(Message::Terminate)[q.len() as int] is Terminate);
}

} // verus!
