//! The scheduling rules of a fixed-size worker pool: one FIFO queue of
//! submitted jobs, a slot per worker for the job it runs, and a shutdown
//! switch. The threads that follow these rules live outside the library; they
//! ask this state what to do next and report back when a job is done.
use vstd::prelude::*;
use vstd::set_lib::{lemma_int_range, lemma_len_subset, lemma_map_size_bound, set_int_range};

verus! {

/// Where a submitted job stands.
#[derive(Debug, Clone, Copy, PartialEq, Eq, Structural)]
pub enum Phase {
    Queued,
    Running(usize),
    Finished,
}

impl Phase {
    /// The worker of a running job.
    pub open spec fn worker(self) -> usize {
        match self {
            Phase::Running(w) => w,
            _ => 0,
        }
    }
}

/// What a worker is to do next.
#[derive(Debug, Clone, Copy, PartialEq, Eq, Structural)]
pub enum Next {
    /// Run the job with this number.
    Run(u64),
    /// Nothing is queued yet: wait for a submission or for shutdown.
    Wait,
    /// The pool is shut down and its queue drained: stop.
    Exit,
}

/// A submission after shutdown has begun.
#[derive(Debug, Clone, Copy, PartialEq, Eq, Structural)]
pub struct PoolClosed;

/// The pool's state as mathematical values.
pub struct PoolView {
    pub size: nat,
    pub queue: Seq<u64>,
    pub running: Seq<Option<u64>>,
    pub next_id: nat,
    pub closed: bool,
    pub phases: Map<u64, Phase>,
}

impl PoolView {
    /// Every job number handed out has a phase; a queued job is in the queue
    /// once; a running job is in the slot of exactly the worker that runs it.
    pub open spec fn wf(self) -> bool {
        &&& self.size >= 1
        &&& self.running.len() == self.size
        &&& forall|id: u64| #[trigger] self.phases.contains_key(id) <==> id < self.next_id
        &&& forall|i: int|
            0 <= i < self.queue.len() ==> self.phases.contains_key(#[trigger] self.queue[i])
                && self.phases[self.queue[i]] == Phase::Queued
        &&& forall|i: int, j: int| 0 <= i < j < self.queue.len() ==> self.queue[i] != self.queue[j]
        &&& forall|id: u64|
            self.phases.contains_key(id) && #[trigger] self.phases[id] == Phase::Queued ==> self.queue.contains(id)
        &&& forall|w: int|
            0 <= w < self.size && (#[trigger] self.running[w]).is_some() ==> self.phases.contains_key(
                self.running[w].unwrap(),
            ) && self.phases[self.running[w].unwrap()] == Phase::Running(w as usize)
        &&& forall|id: u64|
            self.phases.contains_key(id) && (#[trigger] self.phases[id]) is Running ==> self.phases[id].worker()
                < self.size && self.running[self.phases[id].worker() as int] == Some(id)
    }

    /// The jobs being run.
    pub open spec fn running_jobs(self) -> Set<u64> {
        Set::new(|id: u64| self.phases.contains_key(id) && self.phases[id] is Running)
    }

    /// Shut down, with nothing queued and no worker busy.
    pub open spec fn drained(self) -> bool {
        &&& self.closed
        &&& self.queue.len() == 0
        &&& forall|w: int| 0 <= w < self.size ==> (#[trigger] self.running[w]).is_none()
    }
}

/// Once the pool is shut down and drained, every job ever submitted has
/// finished: shutdown drops no queued job.
pub proof fn lemma_drained_all_finished(p: PoolView)
    requires
        p.wf(),
        p.drained(),
    ensures
        forall|id: u64| id < p.next_id ==> p.phases.contains_key(id) && #[trigger] p.phases[id] == Phase::Finished,
{
    assert forall|id: u64| id < p.next_id implies p.phases.contains_key(id) && #[trigger] p.phases[id] == Phase::Finished by {
        assert(p.phases.contains_key(id));
        if p.phases[id] == Phase::Queued {
            assert(p.queue.contains(id));
        } else if p.phases[id] is Running {
            assert(p.running[p.phases[id].worker() as int].is_none());
        }
    }
}

/// A job is handed out once: when a worker takes the front job, that job
/// leaves the queue (which held it once) and is marked as running on that
/// worker, and no later submission can reuse its number.
pub proof fn lemma_handed_out_once(p: PoolView, worker: usize)
    requires
        p.wf(),
        p.queue.len() > 0,
        worker < p.size,
        p.running[worker as int].is_none(),
    ensures
        ({
            let id = p.queue[0];
            let q = PoolView {
                queue: p.queue.drop_first(),
                running: p.running.update(worker as int, Some(id)),
                phases: p.phases.insert(id, Phase::Running(worker)),
                ..p
            };
            &&& !q.queue.contains(id)
            &&& q.phases[id] == Phase::Running(worker)
            &&& id < q.next_id
        }),
{
    let id = p.queue[0];
    let rest = p.queue.drop_first();
    assert(p.phases.contains_key(id));
    if rest.contains(id) {
        let k = choose|k: int| 0 <= k < rest.len() && rest[k] == id;
        assert(p.queue[k + 1] == p.queue[0]);
    }
}

/// No more jobs run at one time than the pool has workers.
pub proof fn lemma_running_within_size(p: PoolView)
    requires
        p.wf(),
    ensures
        p.running_jobs().finite(),
        p.running_jobs().len() <= p.size,
{
    let busy = Set::new(|w: int| 0 <= w < p.size && p.running[w].is_some());
    let f = |w: int| p.running[w].unwrap();
    lemma_int_range(0, p.size as int);
    assert(busy.subset_of(set_int_range(0, p.size as int)));
    lemma_len_subset(busy, set_int_range(0, p.size as int));
    assert forall|id: u64| #[trigger] p.running_jobs().contains(id) implies busy.map(f).contains(id) by {
        let w = p.phases[id].worker() as int;
        assert(busy.contains(w) && f(w) == id);
    }
    assert forall|id: u64| #[trigger] busy.map(f).contains(id) implies p.running_jobs().contains(id) by {
        let w = choose|w: int| busy.contains(w) && f(w) == id;
        assert(p.running[w].is_some());
    }
    assert(busy.map(f) =~= p.running_jobs());
    lemma_map_size_bound(busy, p.running_jobs(), f);
}

/// The state that a pool's workers share.
pub struct PoolState {
    size: usize,
    queue: Vec<u64>,
    running: Vec<Option<u64>>,
    next_id: u64,
    closed: bool,
    phases: Ghost<Map<u64, Phase>>,
}

impl View for PoolState {
    type V = PoolView;

    closed spec fn view(&self) -> PoolView {
        PoolView {
            size: self.size as nat,
            queue: self.queue@,
            running: self.running@,
            next_id: self.next_id as nat,
            closed: self.closed,
            phases: self.phases@,
        }
    }
}

impl PoolState {
    /// A pool of `size` idle workers with nothing submitted.
    pub fn new(size: usize) -> (r: PoolState)
        requires
            size >= 1,
        ensures
            r@.wf(),
            r@.size == size,
            r@.queue == Seq::<u64>::empty(),
            r@.running == Seq::new(size as nat, |w: int| None::<u64>),
            r@.next_id == 0,
            !r@.closed,
            r@.phases == Map::<u64, Phase>::empty(),
    {
        let mut running: Vec<Option<u64>> = Vec::new();
        let mut i: usize = 0;
        while i < size
            invariant
                i <= size,
                running@ == Seq::new(i as nat, |w: int| None::<u64>),
            decreases size - i,
        {
            running.push(None);
            i = i + 1;
            assert(running@ =~= Seq::new(i as nat, |w: int| None::<u64>));
        }
        let r = PoolState {
            size,
            queue: Vec::new(),
            running,
            next_id: 0,
            closed: false,
            phases: Ghost(Map::empty()),
        };
        r
    }

    pub fn size(&self) -> (r: usize)
        ensures
            r == self@.size,
    {
        self.size
    }

    /// How many jobs have been submitted; the next one gets this number.
    pub fn submitted(&self) -> (r: u64)
        ensures
            r == self@.next_id,
    {
        self.next_id
    }

    pub fn is_closed(&self) -> (r: bool)
        ensures
            r == self@.closed,
    {
        self.closed
    }

    /// Queues a new job at the back and returns its number; after shutdown
    /// the job is refused and nothing changes.
    pub fn submit(&mut self) -> (r: Result<u64, PoolClosed>)
        requires
            old(self)@.wf(),
            old(self)@.next_id < u64::MAX,
        ensures
            final(self)@.wf(),
            old(self)@.closed ==> r == Err::<u64, PoolClosed>(PoolClosed) && final(self)@ == old(self)@,
            !old(self)@.closed ==> r == Ok::<u64, PoolClosed>(old(self)@.next_id as u64) && final(self)@ == (
            PoolView {
                queue: old(self)@.queue.push(old(self)@.next_id as u64),
                next_id: old(self)@.next_id + 1,
                phases: old(self)@.phases.insert(old(self)@.next_id as u64, Phase::Queued),
                ..old(self)@
            }),
    {
        if self.closed {
            return Err(PoolClosed);
        }
        let id = self.next_id;
        let ghost old_view = self@;
        self.queue.push(id);
        self.next_id = id + 1;
        self.phases = Ghost(self.phases@.insert(id, Phase::Queued));
        proof {
            let v = self@;
            assert forall|i: int| 0 <= i < v.queue.len() implies v.phases.contains_key(#[trigger] v.queue[i])
                && v.phases[v.queue[i]] == Phase::Queued by {
                if i < old_view.queue.len() {
                    assert(v.queue[i] == old_view.queue[i]);
                }
            }
            assert forall|id2: u64| v.phases.contains_key(id2) && #[trigger] v.phases[id2] == Phase::Queued implies v.queue.contains(id2) by {
                if id2 != id {
                    let k = choose|k: int| 0 <= k < old_view.queue.len() && old_view.queue[k] == id2;
                    assert(v.queue[k] == id2);
                } else {
                    assert(v.queue[v.queue.len() - 1] == id);
                }
            }
            assert forall|w: int| 0 <= w < v.size && (#[trigger] v.running[w]).is_some() implies v.phases.contains_key(
                v.running[w].unwrap()) && v.phases[v.running[w].unwrap()] == Phase::Running(w as usize) by {
                assert(old_view.phases.contains_key(old_view.running[w].unwrap()));
            }
        }
        Ok(id)
    }

    /// What the idle worker `worker` is to do next: run the job at the front
    /// of the queue, wait while the queue is empty and the pool open, or stop
    /// once the pool is shut down and its queue empty.
    pub fn next_job(&mut self, worker: usize) -> (r: Next)
        requires
            old(self)@.wf(),
            worker < old(self)@.size,
            old(self)@.running[worker as int].is_none(),
        ensures
            final(self)@.wf(),
            match r {
                Next::Run(id) => old(self)@.queue.len() > 0 && id == old(self)@.queue[0]
                    && old(self)@.phases[id] == Phase::Queued && final(self)@ == (PoolView {
                    queue: old(self)@.queue.drop_first(),
                    running: old(self)@.running.update(worker as int, Some(id)),
                    phases: old(self)@.phases.insert(id, Phase::Running(worker)),
                    ..old(self)@
                }),
                Next::Wait => old(self)@.queue.len() == 0 && !old(self)@.closed && final(self)@ == old(self)@,
                Next::Exit => old(self)@.queue.len() == 0 && old(self)@.closed && final(self)@ == old(self)@,
            },
    {
        if self.queue.len() == 0 {
            if self.closed {
                return Next::Exit;
            } else {
                return Next::Wait;
            }
        }
        let ghost old_view = self@;
        let id = self.queue.remove(0);
        self.running.set(worker, Some(id));
        self.phases = Ghost(self.phases@.insert(id, Phase::Running(worker)));
        proof {
            let v = self@;
            assert(old_view.phases.contains_key(id));
            assert forall|i: int| 0 <= i < v.queue.len() implies v.phases.contains_key(#[trigger] v.queue[i])
                && v.phases[v.queue[i]] == Phase::Queued by {
                assert(v.queue[i] == old_view.queue[i + 1]);
                assert(old_view.queue[0] != old_view.queue[i + 1]);
            }
            assert forall|id2: u64| v.phases.contains_key(id2) && #[trigger] v.phases[id2] == Phase::Queued implies v.queue.contains(id2) by {
                let k = choose|k: int| 0 <= k < old_view.queue.len() && old_view.queue[k] == id2;
                assert(k != 0);
                assert(v.queue[k - 1] == id2);
            }
            assert forall|w: int| 0 <= w < v.size && (#[trigger] v.running[w]).is_some() implies v.phases.contains_key(
                v.running[w].unwrap()) && v.phases[v.running[w].unwrap()] == Phase::Running(w as usize) by {
                if w != worker {
                    assert(old_view.running[w].is_some());
                    let j = old_view.running[w].unwrap();
                    assert(old_view.phases[j] == Phase::Running(w as usize));
                    assert(j != id);
                }
            }
            assert forall|id2: u64| v.phases.contains_key(id2) && (#[trigger] v.phases[id2]) is Running implies v.phases[id2].worker()
                < v.size && v.running[v.phases[id2].worker() as int] == Some(id2) by {
                if id2 != id {
                    assert(old_view.phases[id2] is Running);
                    assert(old_view.phases[id2].worker() != worker);
                }
            }
        }
        Next::Run(id)
    }

    /// Records that `worker` finished the job it was running.
    pub fn finish(&mut self, worker: usize)
        requires
            old(self)@.wf(),
            worker < old(self)@.size,
            old(self)@.running[worker as int].is_some(),
        ensures
            final(self)@.wf(),
            final(self)@ == (PoolView {
                running: old(self)@.running.update(worker as int, None),
                phases: old(self)@.phases.insert(old(self)@.running[worker as int].unwrap(), Phase::Finished),
                ..old(self)@
            }),
    {
        let ghost old_view = self@;
        let ghost id = self.running@[worker as int].unwrap();
        self.running.set(worker, None);
        self.phases = Ghost(self.phases@.insert(id, Phase::Finished));
        proof {
            let v = self@;
            assert forall|i: int| 0 <= i < v.queue.len() implies v.phases.contains_key(#[trigger] v.queue[i])
                && v.phases[v.queue[i]] == Phase::Queued by {
                assert(old_view.phases[v.queue[i]] == Phase::Queued);
            }
            assert forall|w: int| 0 <= w < v.size && (#[trigger] v.running[w]).is_some() implies v.phases.contains_key(
                v.running[w].unwrap()) && v.phases[v.running[w].unwrap()] == Phase::Running(w as usize) by {
                assert(old_view.running[w].is_some());
                let j = old_view.running[w].unwrap();
                assert(old_view.phases[j] == Phase::Running(w as usize));
            }
            assert forall|id2: u64| v.phases.contains_key(id2) && (#[trigger] v.phases[id2]) is Running implies v.phases[id2].worker()
                < v.size && v.running[v.phases[id2].worker() as int] == Some(id2) by {
                assert(old_view.phases[id2] is Running);
            }
        }
    }

    /// Begins shutdown: later submissions are refused; queued jobs still run.
    pub fn close(&mut self)
        requires
            old(self)@.wf(),
        ensures
            final(self)@.wf(),
            final(self)@ == (PoolView { closed: true, ..old(self)@ }),
    {
        self.closed = true;
    }
}

} // verus!
