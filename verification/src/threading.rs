//! A model of the worker pool's coordination.
//!
//! The pool owns a fixed number of long-lived workers and one shared job
//! intake. The operating-system threads themselves stand outside the
//! library; this module verifies the discipline they follow: jobs are
//! numbered as they come in, held in one first-in-first-out queue, each
//! delivered to exactly one worker, and a drained pool has run every job it
//! ever accepted exactly once. Every step of a pool run is a call of one of
//! the methods below, so the well-formedness they preserve holds across any
//! run.
use vstd::prelude::*;

verus! {

/// Why a pool operation was refused.
#[derive(Debug, PartialEq, Eq, Structural)]
pub enum PoolError {
    /// The pool was asked for with no workers at all.
    SizeZero,
    /// A job was handed in after shutdown had begun.
    ShutDown,
}

/// What one idle worker finds when it asks the intake for a job.
#[derive(Debug, PartialEq, Eq, Structural)]
pub enum Intake {
    /// A job to run, delivered to this worker alone.
    Job(u64),
    /// Nothing yet; more may come, so the worker keeps waiting.
    Wait,
    /// The intake is retired and empty; the worker exits its loop.
    Closed,
}

/// The coordination state of a worker pool.
///
/// Each job is named by the number the intake gave it when it was accepted,
/// so the job accepted first bears the smallest number. A job is in exactly
/// one place at any time: still queued, active on some worker, or finished.
pub struct ThreadPool {
    /// How many workers the pool was built with; fixed and positive.
    pub size: usize,
    /// Whether the sending half of the intake is still alive.
    pub accepting: bool,
    /// Jobs accepted and not yet delivered, oldest first.
    pub queue: Vec<u64>,
    /// Jobs delivered to a worker and still running.
    pub active: Vec<u64>,
    /// Jobs run to completion, in the order they completed.
    pub finished: Vec<u64>,
    /// The number the next accepted job will bear.
    pub next_id: u64,
}

impl ThreadPool {
    /// Whether a job is known to the pool in exactly one of the three
    /// places: queued, active, or finished.
    pub open spec fn in_exactly_one(self, id: u64) -> bool {
        &&& self.queue@.contains(id) || self.active@.contains(id) || self.finished@.contains(id)
        &&& self.queue@.contains(id) ==> !self.active@.contains(id) && !self.finished@.contains(id)
        &&& self.active@.contains(id) ==> !self.queue@.contains(id) && !self.finished@.contains(id)
        &&& self.finished@.contains(id) ==> !self.queue@.contains(id) && !self.active@.contains(id)
    }

    /// The pool's invariant. The queue holds job numbers in increasing
    /// order, so delivery follows submission order; no more jobs are active
    /// than there are workers; every job the pool ever accepted is in
    /// exactly one place; and every delivered job is older than every
    /// queued one.
    pub open spec fn wf(self) -> bool {
        &&& self.size >= 1
        &&& self.active@.len() <= self.size
        &&& forall|i: int, j: int|
            0 <= i < j < self.queue@.len() ==> self.queue@[i] < self.queue@[j]
        &&& forall|i: int| 0 <= i < self.queue@.len() ==> #[trigger] self.queue@[i] < self.next_id
        &&& forall|i: int| 0 <= i < self.active@.len() ==> #[trigger] self.active@[i] < self.next_id
        &&& forall|i: int|
            0 <= i < self.finished@.len() ==> #[trigger] self.finished@[i] < self.next_id
        &&& forall|i: int, j: int|
            0 <= i < j < self.active@.len() ==> self.active@[i] != self.active@[j]
        &&& forall|i: int, j: int|
            0 <= i < j < self.finished@.len() ==> self.finished@[i] != self.finished@[j]
        &&& forall|id: u64| id < self.next_id ==> self.in_exactly_one(id)
        &&& forall|i: int, j: int|
            0 <= i < self.active@.len() && 0 <= j < self.queue@.len() ==> self.active@[i]
                < self.queue@[j]
        &&& forall|i: int, j: int|
            0 <= i < self.finished@.len() && 0 <= j < self.queue@.len() ==> self.finished@[i]
                < self.queue@[j]
    }

    /// A drained pool: shutdown has begun, the queue is empty, and no
    /// worker still runs a job. Pool destruction blocks until this holds.
    pub open spec fn is_drained(self) -> bool {
        &&& !self.accepting
        &&& self.queue@.len() == 0
        &&& self.active@.len() == 0
    }

    /// Creates a pool of `size` workers, all idle, accepting jobs.
    /// A pool without workers is refused.
    pub fn new(size: usize) -> (r: Result<ThreadPool, PoolError>)
        ensures
            size == 0 <==> r matches Err(PoolError::SizeZero),
            size != 0 ==> r is Ok,
            r matches Ok(p) ==> {
                &&& p.wf()
                &&& p.size == size
                &&& p.accepting
                &&& p.queue@ == Seq::<u64>::empty()
                &&& p.active@ == Seq::<u64>::empty()
                &&& p.finished@ == Seq::<u64>::empty()
                &&& p.next_id == 0
            },
    {
        if size == 0 {
            return Err(PoolError::SizeZero);
        }
        Ok(
            ThreadPool {
                size,
                accepting: true,
                queue: Vec::new(),
                active: Vec::new(),
                finished: Vec::new(),
                next_id: 0,
            },
        )
    }

    /// Accepts one job and queues it behind every job accepted before.
    /// Refused once shutdown has begun, leaving the pool unchanged; this
    /// signals a caller bug, not a runtime fault.
    pub fn execute(&mut self) -> (r: Result<u64, PoolError>)
        requires
            old(self).wf(),
            old(self).next_id < u64::MAX,
        ensures
            final(self).wf(),
            old(self).accepting ==> {
                &&& r matches Ok(id) && id == old(self).next_id
                &&& final(self).queue@ == old(self).queue@.push(old(self).next_id)
                &&& final(self).next_id == old(self).next_id + 1
            },
            !old(self).accepting ==> (r matches Err(PoolError::ShutDown)) && *final(self) == *old(
                self,
            ),
            final(self).size == old(self).size,
            final(self).accepting == old(self).accepting,
            final(self).active@ == old(self).active@,
            final(self).finished@ == old(self).finished@,
    {
        if !self.accepting {
            return Err(PoolError::ShutDown);
        }
        let id = self.next_id;
        self.queue.push(id);
        self.next_id = self.next_id + 1;
        proof {
            broadcast use vstd::seq_lib::group_seq_properties;

            assert forall|x: u64| x < self.next_id implies self.in_exactly_one(x) by {
                if x < old(self).next_id {
                    assert(old(self).in_exactly_one(x));
                } else {
                    assert(self.queue@[self.queue@.len() - 1] == x);
                }
            }
        }
        Ok(id)
    }

    /// Retires the sending half of the intake: no further job will be
    /// accepted, and workers finding the queue empty from now on exit.
    pub fn begin_shutdown(&mut self)
        requires
            old(self).wf(),
        ensures
            final(self).wf(),
            !final(self).accepting,
            final(self).size == old(self).size,
            final(self).queue@ == old(self).queue@,
            final(self).active@ == old(self).active@,
            final(self).finished@ == old(self).finished@,
            final(self).next_id == old(self).next_id,
    {
        self.accepting = false;
        proof {
            assert forall|x: u64| x < self.next_id implies self.in_exactly_one(x) by {
                assert(old(self).in_exactly_one(x));
            }
        }
    }

    /// One idle worker asks the intake for a job. The oldest queued job is
    /// delivered to it alone and becomes active; an empty queue means the
    /// worker waits, or exits once the intake is retired.
    pub fn take_job(&mut self) -> (r: Intake)
        requires
            old(self).wf(),
            old(self).active@.len() < old(self).size,
        ensures
            final(self).wf(),
            old(self).queue@.len() > 0 ==> {
                &&& r matches Intake::Job(id) && id == old(self).queue@[0]
                &&& final(self).queue@ == old(self).queue@.drop_first()
                &&& final(self).active@ == old(self).active@.push(old(self).queue@[0])
                &&& final(self).finished@ == old(self).finished@
            },
            old(self).queue@.len() == 0 ==> *final(self) == *old(self) && (r matches Intake::Wait
                <==> old(self).accepting) && (r matches Intake::Closed <==> !old(self).accepting),
            final(self).size == old(self).size,
            final(self).accepting == old(self).accepting,
            final(self).next_id == old(self).next_id,
    {
        if self.queue.len() == 0 {
            if self.accepting {
                return Intake::Wait;
            }
            return Intake::Closed;
        }
        let id = self.queue.remove(0);
        self.active.push(id);
        proof {
            broadcast use vstd::seq_lib::group_seq_properties;

            assert(self.queue@ == old(self).queue@.drop_first());
            assert forall|x: u64| x < self.next_id implies self.in_exactly_one(x) by {
                assert(old(self).in_exactly_one(x));
                if x == id {
                    assert(self.active@.contains(x));
                    assert(!self.queue@.contains(x)) by {
                        if self.queue@.contains(x) {
                            let w = choose|w: int|
                                0 <= w < self.queue@.len() && self.queue@[w] == x;
                            assert(old(self).queue@[w + 1] == x);
                            assert(old(self).queue@[0] < old(self).queue@[w + 1]);
                        }
                    }
                } else {
                    assert(old(self).queue@.contains(x) ==> x != old(self).queue@[0]);
                    if old(self).queue@.contains(x) {
                        let w = choose|w: int|
                            0 <= w < old(self).queue@.len() && old(self).queue@[w] == x;
                        assert(self.queue@[w - 1] == x);
                    }
                }
            }
        }
        Intake::Job(id)
    }

    /// The worker that was delivered job `id` reports it run to
    /// completion: the job leaves the active set and is appended to the
    /// finished record.
    pub fn complete(&mut self, id: u64)
        requires
            old(self).wf(),
            old(self).active@.contains(id),
        ensures
            final(self).wf(),
            final(self).finished@ == old(self).finished@.push(id),
            final(self).active@.len() == old(self).active@.len() - 1,
            !final(self).active@.contains(id),
            forall|x: u64|
                x != id ==> (final(self).active@.contains(x) <==> old(self).active@.contains(x)),
            final(self).size == old(self).size,
            final(self).accepting == old(self).accepting,
            final(self).queue@ == old(self).queue@,
            final(self).next_id == old(self).next_id,
    {
        let n = self.active.len();
        let mut j: usize = 0;
        while j < n
            invariant_except_break
                0 <= j <= n,
                n == self.active@.len(),
                self.active@.contains(id),
                forall|k: int| 0 <= k < j ==> self.active@[k] != id,
                self.active@ == old(self).active@,
            ensures
                j < n == self.active@.len(),
                self.active@ == old(self).active@,
                self.active@[j as int] == id,
                forall|k: int| 0 <= k < j ==> self.active@[k] != id,
            decreases n - j,
        {
            if self.active[j] == id {
                break ;
            }
            j += 1;
        }
        self.active.remove(j);
        self.finished.push(id);
        proof {
            broadcast use vstd::seq_lib::group_seq_properties;

            let olda = old(self).active@;
            let newa = self.active@;
            assert(newa == olda.remove(j as int));
            assert(olda[j as int] == id);
            olda.remove_ensures(j as int);
            assert forall|x: u64| x != id implies (newa.contains(x) <==> olda.contains(x)) by {
                if olda.contains(x) {
                    let w = choose|w: int| 0 <= w < olda.len() && olda[w] == x;
                    if w < j {
                        assert(newa[w] == x);
                    } else {
                        assert(newa[w - 1] == x);
                    }
                }
                if newa.contains(x) {
                    let w = choose|w: int| 0 <= w < newa.len() && newa[w] == x;
                    if w < j {
                        assert(olda[w] == x);
                    } else {
                        assert(olda[w + 1] == x);
                    }
                }
            }
            assert(!newa.contains(id)) by {
                if newa.contains(id) {
                    let w = choose|w: int| 0 <= w < newa.len() && newa[w] == id;
                    if w < j {
                        assert(olda[w] == id);
                    } else {
                        assert(olda[w + 1] == id);
                    }
                }
            }
            assert forall|a: int, b: int| 0 <= a < b < newa.len() implies newa[a] != newa[b] by {
                let ia: int = if a < j { a } else { a + 1 };
                let ib: int = if b < j { b } else { b + 1 };
                assert(newa[a] == olda[ia]);
                assert(newa[b] == olda[ib]);
            }
            assert forall|a: int| 0 <= a < newa.len() implies newa[a] < self.next_id by {
                let ia: int = if a < j { a } else { a + 1 };
                assert(newa[a] == olda[ia]);
            }
            assert forall|a: int, b: int|
                0 <= a < newa.len() && 0 <= b < self.queue@.len() implies newa[a]
                < self.queue@[b] by {
                let ia: int = if a < j { a } else { a + 1 };
                assert(newa[a] == olda[ia]);
            }
            let oldf = old(self).finished@;
            let newf = self.finished@;
            assert(newf == oldf.push(id));
            assert(!oldf.contains(id)) by {
                assert(old(self).in_exactly_one(id));
            }
            assert forall|a: int, b: int| 0 <= a < b < newf.len() implies newf[a] != newf[b] by {
                if b == newf.len() - 1 {
                    assert(newf[a] == oldf[a]);
                    if oldf[a] == id {
                        assert(oldf.contains(id));
                    }
                } else {
                    assert(newf[a] == oldf[a] && newf[b] == oldf[b]);
                }
            }
            assert forall|x: u64| x < self.next_id implies self.in_exactly_one(x) by {
                assert(old(self).in_exactly_one(x));
            }
        }
    }
}

/// The set of numbers below `n`, which has `n` elements.
proof fn lemma_u64_range_set_len(n: u64)
    ensures
        Set::new(|x: u64| x < n).finite(),
        Set::new(|x: u64| x < n).len() == n,
    decreases n,
{
    broadcast use vstd::set::group_set_axioms;

    if n == 0 {
        assert(Set::new(|x: u64| x < n) =~= Set::<u64>::empty());
    } else {
        lemma_u64_range_set_len((n - 1) as u64);
        assert(Set::new(|x: u64| x < n) =~= Set::new(|x: u64| x < (n - 1) as u64).insert(
            (n - 1) as u64,
        ));
    }
}

/// Once a pool is drained, every job it ever accepted stands in the
/// finished record exactly once: each of the jobs accepted so far ran, none
/// ran twice, and the record holds exactly as many entries as jobs were
/// accepted.
pub proof fn lemma_drained_runs_each_job_once(p: ThreadPool)
    requires
        p.wf(),
        p.is_drained(),
    ensures
        forall|id: u64| id < p.next_id <==> p.finished@.contains(id),
        forall|i: int, j: int|
            0 <= i < j < p.finished@.len() ==> p.finished@[i] != p.finished@[j],
        p.finished@.len() == p.next_id,
{
    broadcast use vstd::set::group_set_axioms;

    assert forall|id: u64| id < p.next_id implies p.finished@.contains(id) by {
        assert(p.in_exactly_one(id));
    }
    assert(p.finished@.no_duplicates());
    p.finished@.unique_seq_to_set();
    assert(p.finished@.to_set() =~= Set::new(|x: u64| x < p.next_id));
    lemma_u64_range_set_len(p.next_id);
}

/// Delivery follows submission order: the queue holds jobs oldest first,
/// and every job already delivered to a worker was accepted before every
/// job still queued.
pub proof fn lemma_delivery_follows_submission(p: ThreadPool)
    requires
        p.wf(),
    ensures
        forall|i: int, j: int| 0 <= i < j < p.queue@.len() ==> p.queue@[i] < p.queue@[j],
        forall|i: int, j: int|
            0 <= i < p.active@.len() && 0 <= j < p.queue@.len() ==> p.active@[i] < p.queue@[j],
        forall|i: int, j: int|
            0 <= i < p.finished@.len() && 0 <= j < p.queue@.len() ==> p.finished@[i] < p.queue@[j],
{
}

/// No more jobs are ever active at once than the pool has workers: a pool
/// of one worker serves jobs one after another, while a larger pool may
/// serve as many at once as it has workers.
pub proof fn lemma_bounded_concurrency(p: ThreadPool)
    requires
        p.wf(),
    ensures
        p.active@.len() <= p.size,
{
}

} // verus!
