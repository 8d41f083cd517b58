//! The worker pool: a bounded set of long-lived workers that consume
//! units of deferred work from one shared FIFO channel, plus the
//! shutdown protocol that stops every worker without losing in-flight
//! work.
//!
//! Concurrency is modelled by interleaving: each scheduler step lets one
//! worker either dequeue the message at the head of the channel
//! ([`Pool::take_message`], the critical section that holds the channel
//! lock) or finish the unit of work it is busy with
//! ([`Pool::finish_job`], which runs outside the lock, so several
//! workers may be busy at once). A unit of work is identified by the
//! number its submitter chose; running it has no observable result
//! besides the entry appended to the execution log.

use vstd::prelude::*;
use vstd::multiset::Multiset;

verus! {

broadcast use vstd::seq_lib::group_to_multiset_ensures, vstd::multiset::group_multiset_axioms;

/// A message travelling through the work channel: one unit of deferred
/// work, carrying the identity its submitter chose, or the signal that
/// tells whichever worker dequeues it to exit.
#[derive(Clone, Copy, Debug, PartialEq, Eq, Structural)]
pub enum WorkerMessage {
    NewJob(usize),
    Terminate,
}

/// What one worker is doing: waiting at the channel, running the unit
/// of work it dequeued, or exited after consuming a terminate signal.
#[derive(Clone, Copy, Debug, PartialEq, Eq, Structural)]
pub enum WorkerState {
    Idle,
    Busy(usize),
    Exited,
}

/// The identities of the work items in a message sequence, in order.
pub open spec fn job_ids(msgs: Seq<WorkerMessage>) -> Seq<usize>
    decreases msgs.len(),
{
    if msgs.len() == 0 {
        Seq::empty()
    } else {
        match msgs.first() {
            WorkerMessage::NewJob(j) => seq![j] + job_ids(msgs.drop_first()),
            WorkerMessage::Terminate => job_ids(msgs.drop_first()),
        }
    }
}

/// How many terminate signals a message sequence holds.
pub open spec fn terminate_count(msgs: Seq<WorkerMessage>) -> nat
    decreases msgs.len(),
{
    if msgs.len() == 0 {
        0
    } else {
        (if msgs.first() is Terminate {
            1nat
        } else {
            0nat
        }) + terminate_count(msgs.drop_first())
    }
}

/// Work items precede terminate signals: once a terminate signal stands
/// in the channel, everything behind it is a terminate signal too.
pub open spec fn work_before_terminate(msgs: Seq<WorkerMessage>) -> bool {
    forall|i: int, j: int|
        0 <= i < j < msgs.len() && msgs[i] is Terminate ==> msgs[j] is Terminate
}

/// The work items currently being run, as a multiset of identities.
pub open spec fn busy_jobs(ws: Seq<WorkerState>) -> Multiset<usize>
    decreases ws.len(),
{
    if ws.len() == 0 {
        Multiset::empty()
    } else {
        busy_contrib(ws.first()).add(busy_jobs(ws.drop_first()))
    }
}

/// The contribution of one worker to the multiset of running work.
pub open spec fn busy_contrib(w: WorkerState) -> Multiset<usize> {
    match w {
        WorkerState::Busy(j) => Multiset::singleton(j),
        _ => Multiset::empty(),
    }
}

/// How many workers have not exited yet.
pub open spec fn alive_count(ws: Seq<WorkerState>) -> nat
    decreases ws.len(),
{
    if ws.len() == 0 {
        0
    } else {
        (if ws.first() is Exited {
            0nat
        } else {
            1nat
        }) + alive_count(ws.drop_first())
    }
}

proof fn lemma_job_ids_push(msgs: Seq<WorkerMessage>, m: WorkerMessage)
    ensures
        job_ids(msgs.push(m)) == job_ids(msgs) + (match m {
            WorkerMessage::NewJob(j) => seq![j],
            WorkerMessage::Terminate => Seq::<usize>::empty(),
        }),
    decreases msgs.len(),
{
    if msgs.len() == 0 {
        assert(job_ids(Seq::<WorkerMessage>::empty()) =~= Seq::<usize>::empty());
        assert(msgs.push(m).drop_first() =~= Seq::<WorkerMessage>::empty());
        assert(msgs.push(m).first() == m);
        assert(job_ids(msgs) =~= Seq::<usize>::empty());
        match m {
            WorkerMessage::NewJob(j) => {
                assert(job_ids(msgs.push(m)) =~= seq![j]);
                assert(job_ids(msgs) + seq![j] =~= seq![j]);
            },
            WorkerMessage::Terminate => {
                assert(job_ids(msgs.push(m)) =~= Seq::<usize>::empty());
                assert(job_ids(msgs) + Seq::<usize>::empty() =~= Seq::<usize>::empty());
            },
        }
    } else {
        assert(msgs.push(m).drop_first() =~= msgs.drop_first().push(m));
        assert(msgs.push(m).first() == msgs.first());
        lemma_job_ids_push(msgs.drop_first(), m);
        match m {
            WorkerMessage::NewJob(j) => {
                assert(job_ids(msgs.push(m)) =~= job_ids(msgs) + seq![j]);
            },
            WorkerMessage::Terminate => {
                assert(job_ids(msgs.push(m)) =~= job_ids(msgs) + Seq::<usize>::empty());
            },
        }
    }
}

proof fn lemma_terminate_count_push(msgs: Seq<WorkerMessage>, m: WorkerMessage)
    ensures
        terminate_count(msgs.push(m)) == terminate_count(msgs) + (if m is Terminate {
            1nat
        } else {
            0nat
        }),
    decreases msgs.len(),
{
    if msgs.len() == 0 {
        assert(terminate_count(Seq::<WorkerMessage>::empty()) == 0);
        assert(msgs.push(m).drop_first() =~= Seq::<WorkerMessage>::empty());
        assert(msgs.push(m).first() == m);
    } else {
        assert(msgs.push(m).drop_first() =~= msgs.drop_first().push(m));
        assert(msgs.push(m).first() == msgs.first());
        lemma_terminate_count_push(msgs.drop_first(), m);
    }
}

proof fn lemma_terminate_count_zero(msgs: Seq<WorkerMessage>)
    requires
        terminate_count(msgs) == 0,
    ensures
        forall|i: int| 0 <= i < msgs.len() ==> !(#[trigger] msgs[i] is Terminate),
    decreases msgs.len(),
{
    if msgs.len() > 0 {
        lemma_terminate_count_zero(msgs.drop_first());
        assert forall|i: int| 0 <= i < msgs.len() implies !(#[trigger] msgs[i] is Terminate) by {
            if i > 0 {
                assert(msgs.drop_first()[i - 1] == msgs[i]);
            }
        }
    }
}

proof fn lemma_all_terminate_no_jobs(msgs: Seq<WorkerMessage>)
    requires
        forall|i: int| 0 <= i < msgs.len() ==> #[trigger] msgs[i] is Terminate,
    ensures
        job_ids(msgs) == Seq::<usize>::empty(),
    decreases msgs.len(),
{
    if msgs.len() > 0 {
        assert(msgs[0] is Terminate);
        assert forall|i: int| 0 <= i < msgs.drop_first().len() implies #[trigger] msgs.drop_first()[i] is Terminate by {
            assert(msgs.drop_first()[i] == msgs[i + 1]);
        }
        lemma_all_terminate_no_jobs(msgs.drop_first());
    }
}

proof fn lemma_message_counts(msgs: Seq<WorkerMessage>)
    ensures
        job_ids(msgs).len() + terminate_count(msgs) == msgs.len(),
    decreases msgs.len(),
{
    if msgs.len() > 0 {
        lemma_message_counts(msgs.drop_first());
    }
}

proof fn lemma_busy_jobs_update(ws: Seq<WorkerState>, i: int, v: WorkerState)
    requires
        0 <= i < ws.len(),
    ensures
        busy_jobs(ws.update(i, v)).add(busy_contrib(ws[i])) =~= busy_jobs(ws).add(busy_contrib(v)),
    decreases ws.len(),
{
    if i == 0 {
        assert(ws.update(0, v).drop_first() =~= ws.drop_first());
        assert(ws.update(0, v).first() == v);
        assert(ws[0] == ws.first());
        assert(busy_jobs(ws) == busy_contrib(ws.first()).add(busy_jobs(ws.drop_first())));
        assert(busy_jobs(ws.update(0, v))
            == busy_contrib(v).add(busy_jobs(ws.drop_first())));
        assert forall|x: usize|
            busy_jobs(ws.update(i, v)).add(busy_contrib(ws[i])).count(x)
            == busy_jobs(ws).add(busy_contrib(v)).count(x) by {}
    } else {
        assert(ws.update(i, v).first() == ws.first());
        assert(ws.update(i, v).drop_first() =~= ws.drop_first().update(i - 1, v));
        lemma_busy_jobs_update(ws.drop_first(), i - 1, v);
        assert(ws.drop_first()[i - 1] == ws[i]);
        assert(busy_jobs(ws) == busy_contrib(ws.first()).add(busy_jobs(ws.drop_first())));
        assert(busy_jobs(ws.update(i, v))
            == busy_contrib(ws.first()).add(busy_jobs(ws.drop_first().update(i - 1, v))));
        assert forall|x: usize|
            busy_jobs(ws.update(i, v)).add(busy_contrib(ws[i])).count(x)
            == busy_jobs(ws).add(busy_contrib(v)).count(x) by {
            assert(busy_jobs(ws.drop_first().update(i - 1, v)).add(busy_contrib(ws[i])).count(x)
                == busy_jobs(ws.drop_first()).add(busy_contrib(v)).count(x));
        }
    }
}

proof fn lemma_busy_jobs_none(ws: Seq<WorkerState>)
    requires
        forall|i: int| 0 <= i < ws.len() ==> !(#[trigger] ws[i] is Busy),
    ensures
        busy_jobs(ws) =~= Multiset::empty(),
    decreases ws.len(),
{
    if ws.len() > 0 {
        assert(ws[0] == ws.first());
        assert forall|i: int| 0 <= i < ws.drop_first().len() implies !(#[trigger] ws.drop_first()[i] is Busy) by {
            assert(ws.drop_first()[i] == ws[i + 1]);
        }
        lemma_busy_jobs_none(ws.drop_first());
    }
}

proof fn lemma_alive_count_update(ws: Seq<WorkerState>, i: int, v: WorkerState)
    requires
        0 <= i < ws.len(),
    ensures
        alive_count(ws.update(i, v)) + (if ws[i] is Exited { 0nat } else { 1nat })
            == alive_count(ws) + (if v is Exited { 0nat } else { 1nat }),
    decreases ws.len(),
{
    if i == 0 {
        assert(ws.update(0, v).drop_first() =~= ws.drop_first());
    } else {
        assert(ws.update(i, v).first() == ws.first());
        assert(ws.update(i, v).drop_first() =~= ws.drop_first().update(i - 1, v));
        lemma_alive_count_update(ws.drop_first(), i - 1, v);
    }
}

proof fn lemma_alive_count_all(ws: Seq<WorkerState>)
    requires
        forall|i: int| 0 <= i < ws.len() ==> !(#[trigger] ws[i] is Exited),
    ensures
        alive_count(ws) == ws.len(),
    decreases ws.len(),
{
    if ws.len() > 0 {
        assert(ws[0] == ws.first());
        assert forall|i: int| 0 <= i < ws.drop_first().len() implies !(#[trigger] ws.drop_first()[i] is Exited) by {
            assert(ws.drop_first()[i] == ws[i + 1]);
        }
        lemma_alive_count_all(ws.drop_first());
    }
}

proof fn lemma_alive_count_none(ws: Seq<WorkerState>)
    requires
        forall|i: int| 0 <= i < ws.len() ==> #[trigger] ws[i] is Exited,
    ensures
        alive_count(ws) == 0,
    decreases ws.len(),
{
    if ws.len() > 0 {
        assert(ws[0] is Exited);
        assert forall|i: int| 0 <= i < ws.drop_first().len() implies #[trigger] ws.drop_first()[i] is Exited by {
            assert(ws.drop_first()[i] == ws[i + 1]);
        }
        lemma_alive_count_none(ws.drop_first());
    }
}

proof fn lemma_alive_count_pos(ws: Seq<WorkerState>, i: int)
    requires
        0 <= i < ws.len(),
        !(ws[i] is Exited),
    ensures
        alive_count(ws) > 0,
    decreases ws.len(),
{
    if i > 0 {
        assert(ws.drop_first()[i - 1] == ws[i]);
        lemma_alive_count_pos(ws.drop_first(), i - 1);
    }
}

/// The work channel: an unbounded multi-producer queue, drained from
/// the front by whichever worker holds the receive lock. The queue
/// order is the send order, and a dequeued message is gone: each
/// message is observed by exactly one worker.
///
/// In the running system a worker blocks on an empty channel; in this
/// interleaving model the scheduler instead only lets a worker dequeue
/// when a message is present.
pub struct Channel {
    pub queue: Vec<WorkerMessage>,
}

impl View for Channel {
    type V = Seq<WorkerMessage>;

    open spec fn view(&self) -> Seq<WorkerMessage> {
        self.queue@
    }
}

impl Channel {
    /// A channel holding no messages.
    pub fn new() -> (c: Channel)
        ensures
            c@ == Seq::<WorkerMessage>::empty(),
    {
        Channel { queue: Vec::new() }
    }

    /// Enqueue one message behind everything already queued.
    pub fn send(&mut self, m: WorkerMessage)
        ensures
            final(self)@ == old(self)@.push(m),
    {
        self.queue.push(m);
    }

    /// Dequeue the message at the head of the queue. Exactly this one
    /// message leaves the channel; no copy of it remains.
    pub fn recv(&mut self) -> (m: WorkerMessage)
        requires
            old(self)@.len() > 0,
        ensures
            m == old(self)@.first(),
            final(self)@ == old(self)@.drop_first(),
    {
        let m = self.queue.remove(0);
        proof {
            assert(old(self)@.remove(0) =~= old(self)@.drop_first());
        }
        m
    }

    /// How many messages are queued.
    pub fn len(&self) -> (n: usize)
        ensures
            n == self@.len(),
    {
        self.queue.len()
    }
}

/// The pool: a fixed set of worker slots, the sending half of the work
/// channel, and the log of finished work. The ghost fields record what
/// was submitted and what was dequeued, in order, so that the
/// invariant can tie the log to the submissions.
pub struct Pool {
    pub workers: Vec<WorkerState>,
    pub channel: Channel,
    /// Identities of finished work items, in completion order.
    pub executed: Vec<usize>,
    /// Whether the shutdown protocol has begun.
    pub shutting_down: bool,
    /// Identities of submitted work items, in submission order.
    pub submitted: Ghost<Seq<usize>>,
    /// Identities of dequeued work items, in dequeue order.
    pub taken: Ghost<Seq<usize>>,
}

impl Pool {
    /// The pool invariant. Every operation preserves it; together its
    /// clauses say that no message is lost, duplicated or split:
    /// dequeues happen in send order, every dequeued work item is
    /// either still running or logged exactly once, terminate signals
    /// queue behind all work, and one terminate signal is owed to each
    /// worker that has not exited.
    pub open spec fn wf(&self) -> bool {
        &&& self.workers@.len() > 0
        &&& self.taken@ + job_ids(self.channel@) == self.submitted@
        &&& self.executed@.to_multiset().add(busy_jobs(self.workers@))
            == self.taken@.to_multiset()
        &&& (if self.shutting_down {
            terminate_count(self.channel@) == alive_count(self.workers@)
        } else {
            terminate_count(self.channel@) == 0
                && alive_count(self.workers@) == self.workers@.len()
        })
        &&& work_before_terminate(self.channel@)
        &&& (self.shutting_down && job_ids(self.channel@).len() > 0
            ==> terminate_count(self.channel@) > 0)
    }

    /// How many workers the pool was built with; fixed for its whole
    /// life.
    pub open spec fn size(&self) -> nat {
        self.workers@.len()
    }

    /// Build a pool with `size` workers, every one idle at the empty
    /// channel. A pool of zero workers is a configuration mistake, not
    /// a runtime condition, so it is ruled out up front.
    pub fn new(size: usize) -> (p: Pool)
        requires
            size > 0,
        ensures
            p.wf(),
            p.size() == size,
            forall|i: int| 0 <= i < size ==> p.workers@[i] is Idle,
            p.channel@ == Seq::<WorkerMessage>::empty(),
            p.executed@ == Seq::<usize>::empty(),
            p.submitted@ == Seq::<usize>::empty(),
            !p.shutting_down,
    {
        let mut workers: Vec<WorkerState> = Vec::new();
        let mut i: usize = 0;
        while i < size
            invariant
                i <= size,
                workers@.len() == i,
                forall|k: int| 0 <= k < i ==> workers@[k] is Idle,
            decreases size - i,
        {
            workers.push(WorkerState::Idle);
            i += 1;
        }
        let p = Pool {
            workers,
            channel: Channel::new(),
            executed: Vec::new(),
            shutting_down: false,
            submitted: Ghost(Seq::empty()),
            taken: Ghost(Seq::empty()),
        };
        proof {
            assert(p.taken@ + job_ids(p.channel@) =~= p.submitted@);
            lemma_busy_jobs_none(p.workers@);
            assert(p.executed@.to_multiset() =~= Multiset::<usize>::empty());
            assert(p.executed@.to_multiset().add(busy_jobs(p.workers@))
                =~= p.taken@.to_multiset());
            lemma_alive_count_all(p.workers@);
        }
        p
    }

    /// Submit one unit of work: wrap it as a work message and enqueue
    /// it. Exactly one worker will dequeue it, exactly once. Submitting
    /// after shutdown has begun is a usage error — the sending half is
    /// then no longer owed a receiver — so it is ruled out here; the
    /// running system aborts in that case.
    pub fn execute(&mut self, job: usize)
        requires
            old(self).wf(),
            !old(self).shutting_down,
        ensures
            final(self).wf(),
            final(self).channel@ == old(self).channel@.push(WorkerMessage::NewJob(job)),
            final(self).submitted@ == old(self).submitted@.push(job),
            final(self).workers@ == old(self).workers@,
            final(self).executed@ == old(self).executed@,
            final(self).taken@ == old(self).taken@,
            !final(self).shutting_down,
    {
        self.channel.send(WorkerMessage::NewJob(job));
        proof {
            self.submitted = Ghost(self.submitted@.push(job));
            lemma_job_ids_push(old(self).channel@, WorkerMessage::NewJob(job));
            lemma_terminate_count_push(old(self).channel@, WorkerMessage::NewJob(job));
            assert(self.taken@ + job_ids(self.channel@) =~= self.submitted@);
            lemma_terminate_count_zero(old(self).channel@);
            assert forall|i: int, j: int|
                0 <= i < j < self.channel@.len() && self.channel@[i] is Terminate
                implies self.channel@[j] is Terminate by {
                assert(!(old(self).channel@[i] is Terminate));
            }
        }
    }

    /// The first half of the shutdown protocol: send exactly one
    /// terminate signal per worker. Which worker consumes which signal
    /// is not determined, but each worker exits after consuming one, so
    /// exactly one signal is consumed per worker lifetime.
    pub fn begin_shutdown(&mut self)
        requires
            old(self).wf(),
            !old(self).shutting_down,
        ensures
            final(self).wf(),
            final(self).shutting_down,
            final(self).channel@ == old(self).channel@
                + Seq::new(old(self).size(), |i: int| WorkerMessage::Terminate),
            final(self).workers@ == old(self).workers@,
            final(self).executed@ == old(self).executed@,
            final(self).submitted@ == old(self).submitted@,
            final(self).taken@ == old(self).taken@,
    {
        self.shutting_down = true;
        let size = self.workers.len();
        let mut i: usize = 0;
        while i < size
            invariant
                i <= size,
                size == old(self).size(),
                self.workers@ == old(self).workers@,
                self.executed@ == old(self).executed@,
                self.submitted@ == old(self).submitted@,
                self.taken@ == old(self).taken@,
                self.shutting_down,
                self.channel@ == old(self).channel@
                    + Seq::new(i as nat, |k: int| WorkerMessage::Terminate),
                job_ids(self.channel@) == job_ids(old(self).channel@),
                terminate_count(self.channel@) == i,
                work_before_terminate(self.channel@),
            decreases size - i,
        {
            let ghost pre = self.channel@;
            self.channel.send(WorkerMessage::Terminate);
            proof {
                lemma_job_ids_push(pre, WorkerMessage::Terminate);
                lemma_terminate_count_push(pre, WorkerMessage::Terminate);
                assert(job_ids(self.channel@) =~= job_ids(pre));
                assert(self.channel@ =~= old(self).channel@
                    + Seq::new((i + 1) as nat, |k: int| WorkerMessage::Terminate));
                assert forall|a: int, b: int|
                    0 <= a < b < self.channel@.len() && self.channel@[a] is Terminate
                    implies self.channel@[b] is Terminate by {
                    if b < pre.len() {
                        assert(pre[a] is Terminate);
                    }
                }
            }
            i += 1;
        }
        proof {
            assert(old(self).taken@ + job_ids(old(self).channel@) == old(self).submitted@);
            assert(self.taken@ + job_ids(self.channel@) =~= self.submitted@);
            assert(alive_count(self.workers@) == old(self).workers@.len());
            lemma_message_counts(self.channel@);
        }
    }

    /// One worker's turn at the receiving end: take the channel lock,
    /// dequeue the head message, release the lock. A work message
    /// leaves the worker busy running it (the run itself happens
    /// outside the lock, in [`Pool::finish_job`]); a terminate signal
    /// makes the worker exit its loop.
    pub fn take_message(&mut self, w: usize)
        requires
            old(self).wf(),
            w < old(self).workers@.len(),
            old(self).workers@[w as int] is Idle,
            old(self).channel@.len() > 0,
        ensures
            final(self).wf(),
            final(self).channel@ == old(self).channel@.drop_first(),
            final(self).executed@ == old(self).executed@,
            final(self).submitted@ == old(self).submitted@,
            final(self).shutting_down == old(self).shutting_down,
            (old(self).channel@.first() matches WorkerMessage::NewJob(j) ==> {
                &&& final(self).workers@ == old(self).workers@.update(w as int, WorkerState::Busy(j))
                &&& final(self).taken@ == old(self).taken@.push(j)
            }),
            (old(self).channel@.first() is Terminate ==> {
                &&& final(self).workers@ == old(self).workers@.update(w as int, WorkerState::Exited)
                &&& final(self).taken@ == old(self).taken@
            }),
    {
        let ghost pre = *old(self);
        let m = self.channel.recv();
        match m {
            WorkerMessage::NewJob(j) => {
                self.workers[w] = WorkerState::Busy(j);
                proof {
                    self.taken = Ghost(self.taken@.push(j));
                    assert(pre.taken@ + job_ids(pre.channel@) == pre.submitted@);
                    assert(self.taken@ + job_ids(self.channel@) =~= self.submitted@);
                    lemma_busy_jobs_update(pre.workers@, w as int, WorkerState::Busy(j));
                    assert(busy_contrib(pre.workers@[w as int]) =~= Multiset::<usize>::empty());
                    assert(busy_jobs(self.workers@)
                        =~= busy_jobs(pre.workers@).insert(j)) by {
                        assert(busy_jobs(self.workers@).add(Multiset::empty())
                            =~= busy_jobs(self.workers@));
                    }
                    assert(self.executed@.to_multiset().add(busy_jobs(self.workers@))
                        =~= self.taken@.to_multiset());
                    lemma_alive_count_update(pre.workers@, w as int, WorkerState::Busy(j));
                    self.lemma_channel_tail_ordered(pre.channel@);
                }
            },
            WorkerMessage::Terminate => {
                self.workers[w] = WorkerState::Exited;
                proof {
                    assert(self.taken@ + job_ids(self.channel@) =~= self.submitted@);
                    lemma_busy_jobs_update(pre.workers@, w as int, WorkerState::Exited);
                    assert(busy_jobs(self.workers@).add(Multiset::empty())
                        =~= busy_jobs(pre.workers@).add(Multiset::empty()));
                    assert(busy_jobs(self.workers@) =~= busy_jobs(pre.workers@)) by {
                        assert(busy_jobs(self.workers@).add(Multiset::<usize>::empty())
                            =~= busy_jobs(self.workers@));
                        assert(busy_jobs(pre.workers@).add(Multiset::<usize>::empty())
                            =~= busy_jobs(pre.workers@));
                    }
                    lemma_alive_count_update(pre.workers@, w as int, WorkerState::Exited);
                    // A terminate signal at the head means nothing queued
                    // before it: the channel holds terminate signals only.
                    assert(terminate_count(pre.channel@) > 0);
                    if !pre.shutting_down {
                        assert(terminate_count(pre.channel@) == 0);
                    }
                    assert forall|i: int| 0 <= i < self.channel@.len()
                        implies #[trigger] self.channel@[i] is Terminate by {
                        assert(pre.channel@[0] is Terminate);
                        assert(self.channel@[i] == pre.channel@[i + 1]);
                    }
                    lemma_all_terminate_no_jobs(self.channel@);
                    self.lemma_channel_tail_ordered(pre.channel@);
                }
            },
        }
    }

    /// Ordering of the channel survives dequeuing its head.
    proof fn lemma_channel_tail_ordered(&self, pre: Seq<WorkerMessage>)
        requires
            work_before_terminate(pre),
            pre.len() > 0,
            self.channel@ == pre.drop_first(),
        ensures
            work_before_terminate(self.channel@),
    {
        assert forall|i: int, j: int|
            0 <= i < j < self.channel@.len() && self.channel@[i] is Terminate
            implies self.channel@[j] is Terminate by {
            assert(self.channel@[i] == pre[i + 1]);
            assert(self.channel@[j] == pre[j + 1]);
        }
    }

    /// A busy worker completes its unit of work: the run returns, the
    /// item's identity is logged, and the worker loops back to the
    /// channel. Other workers' turns may interleave freely before this
    /// one, which is why completion order need not be submission order.
    pub fn finish_job(&mut self, w: usize)
        requires
            old(self).wf(),
            w < old(self).workers@.len(),
            old(self).workers@[w as int] is Busy,
        ensures
            final(self).wf(),
            final(self).workers@ == old(self).workers@.update(w as int, WorkerState::Idle),
            (old(self).workers@[w as int] matches WorkerState::Busy(j)
                ==> final(self).executed@ == old(self).executed@.push(j)),
            final(self).channel@ == old(self).channel@,
            final(self).submitted@ == old(self).submitted@,
            final(self).taken@ == old(self).taken@,
            final(self).shutting_down == old(self).shutting_down,
    {
        let ghost pre = *old(self);
        let state = self.workers[w];
        match state {
            WorkerState::Busy(j) => {
                self.executed.push(j);
                self.workers[w] = WorkerState::Idle;
                proof {
                    lemma_busy_jobs_update(pre.workers@, w as int, WorkerState::Idle);
                    assert(busy_contrib(pre.workers@[w as int]) =~= Multiset::singleton(j));
                    assert(self.executed@.to_multiset()
                        =~= pre.executed@.to_multiset().insert(j));
                    assert forall|x: usize|
                        #[trigger] self.executed@.to_multiset().add(busy_jobs(self.workers@)).count(x)
                        == self.taken@.to_multiset().count(x) by {
                        assert(busy_jobs(self.workers@).add(busy_contrib(pre.workers@[w as int])).count(x)
                            == busy_jobs(pre.workers@).add(busy_contrib(WorkerState::Idle)).count(x));
                    }
                    assert(self.executed@.to_multiset().add(busy_jobs(self.workers@))
                        =~= self.taken@.to_multiset());
                    lemma_alive_count_update(pre.workers@, w as int, WorkerState::Idle);
                }
            },
            _ => {
                proof {
                    assert(false);
                }
            },
        }
    }

    /// The index of some worker that has not exited, if one exists.
    fn first_active(&self) -> (r: Option<usize>)
        ensures
            (r matches Some(w) ==> w < self.workers@.len() && !(self.workers@[w as int] is Exited)),
            (r is None ==> forall|i: int|
                0 <= i < self.workers@.len() ==> #[trigger] self.workers@[i] is Exited),
    {
        let n = self.workers.len();
        let mut w: usize = 0;
        while w < n
            invariant
                w <= n,
                n == self.workers@.len(),
                forall|k: int| 0 <= k < w ==> #[trigger] self.workers@[k] is Exited,
            decreases n - w,
        {
            match self.workers[w] {
                WorkerState::Exited => {
                    w += 1;
                },
                _ => {
                    return Some(w);
                },
            }
        }
        None
    }

    /// Teardown: run the whole shutdown protocol and wait for every
    /// worker. One terminate signal per worker is sent, then workers
    /// are scheduled until all have exited. Because terminate signals
    /// queue behind all pending work, teardown returns only after every
    /// submitted work item has been run: the log then holds exactly the
    /// submitted identities, each exactly once.
    pub fn teardown(&mut self)
        requires
            old(self).wf(),
            !old(self).shutting_down,
        ensures
            final(self).wf(),
            final(self).workers@.len() == old(self).workers@.len(),
            forall|i: int| 0 <= i < final(self).workers@.len()
                ==> #[trigger] final(self).workers@[i] is Exited,
            final(self).channel@.len() == 0,
            final(self).submitted@ == old(self).submitted@,
            old(self).executed@.is_prefix_of(final(self).executed@),
            final(self).executed@.to_multiset() == final(self).submitted@.to_multiset(),
            final(self).executed@.len() == final(self).submitted@.len(),
    {
        self.begin_shutdown();
        loop
            invariant
                self.wf(),
                self.shutting_down,
                self.workers@.len() == old(self).workers@.len(),
                self.submitted@ == old(self).submitted@,
                old(self).executed@.is_prefix_of(self.executed@),
            ensures
                self.wf(),
                self.workers@.len() == old(self).workers@.len(),
                self.submitted@ == old(self).submitted@,
                old(self).executed@.is_prefix_of(self.executed@),
                forall|i: int| 0 <= i < self.workers@.len()
                    ==> #[trigger] self.workers@[i] is Exited,
            decreases
                alive_count(self.workers@),
                self.channel@.len(),
                busy_jobs(self.workers@).len(),
        {
            let ghost pre = *self;
            match self.first_active() {
                None => {
                    break;
                },
                Some(w) => {
                    let state = self.workers[w];
                    match state {
                        WorkerState::Busy(j) => {
                            self.finish_job(w);
                            proof {
                                lemma_busy_jobs_update(pre.workers@, w as int, WorkerState::Idle);
                                assert(busy_contrib(pre.workers@[w as int])
                                    =~= Multiset::singleton(j));
                                assert(busy_jobs(self.workers@).add(Multiset::singleton(j))
                                    == busy_jobs(pre.workers@).add(Multiset::empty()));
                                assert(busy_jobs(pre.workers@).add(Multiset::<usize>::empty())
                                    =~= busy_jobs(pre.workers@));
                                assert(busy_jobs(self.workers@).len() + 1
                                    == busy_jobs(pre.workers@).len());
                                assert(pre.executed@.is_prefix_of(self.executed@));
                                assert(old(self).executed@.is_prefix_of(self.executed@));
                            }
                        },
                        WorkerState::Idle => {
                            proof {
                                lemma_alive_count_pos(self.workers@, w as int);
                                lemma_message_counts(self.channel@);
                            }
                            self.take_message(w);
                            proof {
                                if pre.channel@.first() is Terminate {
                                    lemma_alive_count_update(pre.workers@, w as int,
                                        WorkerState::Exited);
                                } else {
                                    lemma_alive_count_update(pre.workers@, w as int,
                                        WorkerState::Busy(pre.channel@.first()->0));
                                }
                                assert(old(self).executed@.is_prefix_of(self.executed@));
                            }
                        },
                        WorkerState::Exited => {
                            proof {
                                assert(false);
                            }
                        },
                    }
                },
            }
        }
        proof {
            self.lemma_quiescent();
        }
    }

    /// When every worker has exited, nothing is queued, nothing is
    /// running, and the log holds exactly the submitted work: no work
    /// item was lost, none was run twice.
    pub proof fn lemma_quiescent(&self)
        requires
            self.wf(),
            forall|i: int| 0 <= i < self.workers@.len()
                ==> #[trigger] self.workers@[i] is Exited,
        ensures
            self.channel@.len() == 0,
            self.executed@.to_multiset() == self.submitted@.to_multiset(),
            self.executed@.len() == self.submitted@.len(),
    {
        lemma_alive_count_none(self.workers@);
        if !self.shutting_down {
            assert(alive_count(self.workers@) == self.workers@.len());
            assert(self.workers@.len() > 0);
            assert(false);
        }
        assert(terminate_count(self.channel@) == 0);
        assert(job_ids(self.channel@).len() == 0);
        lemma_message_counts(self.channel@);
        assert(self.taken@ + job_ids(self.channel@) == self.submitted@);
        assert(job_ids(self.channel@) =~= Seq::<usize>::empty());
        assert(self.taken@ =~= self.submitted@);
        lemma_busy_jobs_none(self.workers@);
        assert(self.executed@.to_multiset().add(Multiset::empty())
            =~= self.executed@.to_multiset());
        assert(self.executed@.to_multiset() =~= self.taken@.to_multiset());
        assert(self.executed@.to_multiset().len() == self.executed@.len());
        assert(self.submitted@.to_multiset().len() == self.submitted@.len());
    }

    /// Work items are dequeued in exactly the order they were
    /// submitted: what has been taken so far is a prefix of the
    /// submission log. Which worker finishes first is unordered, but
    /// the channel itself is first-in, first-out.
    pub proof fn lemma_fifo_dequeue(&self)
        requires
            self.wf(),
        ensures
            self.taken@.len() <= self.submitted@.len(),
            self.taken@ == self.submitted@.take(self.taken@.len() as int),
    {
        assert(self.taken@ + job_ids(self.channel@) == self.submitted@);
        assert(self.taken@ =~= self.submitted@.take(self.taken@.len() as int));
    }
}

} // verus!
