//! Continuity workers: which threads a worker is started for, and what one maintenance round
//! reports. Starting a worker and asking whether it finished are left to a backend.

use vstd::prelude::*;

use crate::goal_sync::{is_thread_id, valid_thread_id};
use crate::text::text_lt;
use crate::text_map::TextMap;

verus! {

/// How a continuity worker ended.
#[derive(Debug, Clone, PartialEq, Eq)]
pub struct NativeSessionContinuityWorkerOutcome {
    pub success: bool,
    pub exit_code: Option<i32>,
    pub diagnostic: String,
}

/// A running continuity worker.
pub trait NativeSessionContinuityWorker {
    /// The outcome once the worker has ended, `None` while it runs.
    fn try_finish(&mut self) -> Result<Option<NativeSessionContinuityWorkerOutcome>, String>;

    /// Stops the worker.
    fn terminate(&mut self);
}

/// Starts continuity workers.
pub trait NativeSessionContinuityWorkerBackend {
    fn start(&mut self, thread_ids: &[String]) -> Result<Box<dyn NativeSessionContinuityWorker>, String>;
}

/// The most threads that may wait for a worker.
pub const MAX_WORKER_THREADS: usize = 4096;

/// Why the coordinator stopped a round.
#[derive(Debug, Clone, PartialEq, Eq)]
pub enum WorkerError {
    InvalidThreadId,
    QueueFull,
    Worker(String),
    Start(String),
}

/// A worker that ended, and the threads it was started for.
#[derive(Debug, Clone, PartialEq, Eq)]
pub struct NativeSessionContinuityWorkerFinished {
    pub thread_ids: Vec<String>,
    pub outcome: NativeSessionContinuityWorkerOutcome,
}

/// What one maintenance round saw and did.
#[derive(Debug, Clone, PartialEq, Eq)]
pub struct NativeSessionContinuityMaintenance {
    pub changed_threads: Vec<String>,
    pub started_threads: Vec<String>,
    pub finished: Option<NativeSessionContinuityWorkerFinished>,
    pub running: bool,
}

pub open spec fn texts(values: Seq<String>) -> Seq<Seq<char>> {
    values.map_values(|value: String| value@)
}

/// The queue after enqueuing `ids` in order, and the error that stopped it: an invalid id
/// stops before it is queued; a queue that outgrows `MAX_WORKER_THREADS` stops after the id
/// that made it so.
pub open spec fn enqueue_outcome(pending: Set<Seq<char>>, ids: Seq<Seq<char>>) -> (Set<Seq<char>>, Option<WorkerError>)
    decreases ids.len(),
{
    if ids.len() == 0 {
        (pending, None)
    } else if !is_thread_id(ids[0]) {
        (pending, Some(WorkerError::InvalidThreadId))
    } else if pending.insert(ids[0]).len() > MAX_WORKER_THREADS {
        (pending.insert(ids[0]), Some(WorkerError::QueueFull))
    } else {
        enqueue_outcome(pending.insert(ids[0]), ids.drop_first())
    }
}

/// `batch` holds the texts of `set`, each once, in ascending order.
pub open spec fn sorted_batch(batch: Seq<Seq<char>>, set: Set<Seq<char>>) -> bool {
    &&& forall|i: int, j: int| 0 <= i < j < batch.len() ==> text_lt(batch[i], batch[j])
    &&& forall|i: int| 0 <= i < batch.len() ==> set.contains(#[trigger] batch[i])
    &&& forall|key: Seq<char>| #[trigger] set.contains(key) ==> exists|i: int| 0 <= i < batch.len() && batch[i] == key
}

struct ActiveWorker {
    thread_ids: Vec<String>,
    worker: Box<dyn NativeSessionContinuityWorker>,
}

/// A boxed backend starts workers as the backend in the box does.
impl NativeSessionContinuityWorkerBackend for Box<dyn NativeSessionContinuityWorkerBackend> {
    fn start(&mut self, thread_ids: &[String]) -> Result<Box<dyn NativeSessionContinuityWorker>, String> {
        (**self).start(thread_ids)
    }
}

/// Queues changed threads and runs one continuity worker at a time over the queued ones.
pub struct NativeSessionContinuityCoordinator<B: NativeSessionContinuityWorkerBackend> {
    backend: B,
    pending: TextMap<()>,
    active: Option<ActiveWorker>,
}

impl<B: NativeSessionContinuityWorkerBackend> NativeSessionContinuityCoordinator<B> {
    /// The queued threads.
    pub closed spec fn queued(&self) -> Set<Seq<char>> {
        self.pending.map().dom()
    }

    /// The threads of the running worker, if one runs.
    pub closed spec fn running_threads(&self) -> Option<Seq<Seq<char>>> {
        match self.active {
            Some(active) => Some(texts(active.thread_ids@)),
            None => None,
        }
    }

    /// The backend that starts the workers.
    pub closed spec fn starter(&self) -> B {
        self.backend
    }

    /// A coordinator that starts its workers with `backend`, with nothing queued and no
    /// worker running.
    pub fn new(backend: B) -> (result: Self)
        ensures
            result.starter() == backend,
            result.queued() == Set::<Seq<char>>::empty(),
            result.running_threads() is None,
    {
        let result = NativeSessionContinuityCoordinator { backend, pending: TextMap::new(), active: None };
        proof {
            assert(result.queued() =~= Set::<Seq<char>>::empty());
        }
        result
    }

    /// Queues `thread_ids` in order, as `enqueue_outcome` says.
    pub fn enqueue_threads(&mut self, thread_ids: &[String]) -> (result: Result<(), WorkerError>)
        ensures
            final(self).queued() == enqueue_outcome(old(self).queued(), texts(thread_ids@)).0,
            match enqueue_outcome(old(self).queued(), texts(thread_ids@)).1 {
                Some(e) => result == Err::<(), WorkerError>(e),
                None => result is Ok,
            },
            final(self).running_threads() == old(self).running_threads(),
    {
        let ghost ids = texts(thread_ids@);
        let ghost start = self.queued();
        proof {
            assert(ids.skip(0) =~= ids);
        }
        for i in 0..thread_ids.len()
            invariant
                ids == texts(thread_ids@),
                start == old(self).queued(),
                enqueue_outcome(start, ids) == enqueue_outcome(self.queued(), ids.skip(i as int)),
                self.running_threads() == old(self).running_threads(),
        {
            proof {
                assert(ids.skip(i as int)[0] == thread_ids@[i as int]@);
                assert(ids.skip(i as int).drop_first() =~= ids.skip(i + 1));
            }
            let thread_id = &thread_ids[i];
            if !valid_thread_id(thread_id.as_str()) {
                proof {
                    assert(!is_thread_id(ids.skip(i as int)[0]));
                    assert(enqueue_outcome(self.queued(), ids.skip(i as int)) == (
                        self.queued(),
                        Some(WorkerError::InvalidThreadId),
                    ));
                }
                return Err(WorkerError::InvalidThreadId);
            }
            self.pending.insert(thread_id.clone(), ());
            if self.pending.len() > MAX_WORKER_THREADS {
                return Err(WorkerError::QueueFull);
            }
        }
        proof {
            assert(ids.skip(thread_ids@.len() as int) =~= Seq::<Seq<char>>::empty());
        }
        Ok(())
    }

    /// One round: queues `changed_threads`; collects the running worker's outcome once it
    /// has ended; and, when no worker runs and threads are queued, starts one for all the
    /// queued threads in ascending order (they stay queued when it cannot start).
    pub fn maintain_once(&mut self, changed_threads: Vec<String>) -> (result: Result<
        NativeSessionContinuityMaintenance,
        WorkerError,
    >)
        ensures
            ({
                let (queued, stop) = enqueue_outcome(old(self).queued(), texts(changed_threads@));
                match stop {
                    Some(e) => {
                        &&& result == Err::<NativeSessionContinuityMaintenance, WorkerError>(e)
                        &&& final(self).queued() == queued
                        &&& final(self).running_threads() == old(self).running_threads()
                    },
                    None => match result {
                        Err(WorkerError::Worker(_)) => {
                            &&& old(self).running_threads() is Some
                            &&& final(self).queued() == queued
                            &&& final(self).running_threads() == old(self).running_threads()
                        },
                        Err(WorkerError::Start(_)) => {
                            &&& final(self).queued() == queued
                            &&& final(self).running_threads() is None
                            &&& !queued.is_empty()
                        },
                        Err(_) => false,
                        Ok(round) => {
                            let started = texts(round.started_threads@);
                            &&& texts(round.changed_threads@) == texts(changed_threads@)
                            &&& round.finished matches Some(finished) ==> old(self).running_threads() == Some(
                                texts(finished.thread_ids@),
                            )
                            &&& (started.len() > 0) == ((round.finished is Some || old(self).running_threads() is None)
                                && !queued.is_empty())
                            &&& started.len() > 0 ==> {
                                &&& sorted_batch(started, queued)
                                &&& final(self).queued().is_empty()
                                &&& final(self).running_threads() == Some(started)
                            }
                            &&& started.len() == 0 ==> {
                                &&& final(self).queued() == queued
                                &&& final(self).running_threads() == if round.finished is Some {
                                    None
                                } else {
                                    old(self).running_threads()
                                }
                            }
                            &&& round.running == final(self).running_threads() is Some
                        },
                    },
                }
            }),
    {
        let ghost before = self.running_threads();
        match self.enqueue_threads(changed_threads.as_slice()) {
            Ok(()) => {},
            Err(e) => {
                return Err(e);
            },
        }
        let ghost queued = self.queued();
        let mut finished: Option<NativeSessionContinuityWorkerFinished> = None;
        match self.active.take() {
            Some(mut active) => {
                match active.worker.try_finish() {
                    Err(message) => {
                        self.active = Some(active);
                        return Err(WorkerError::Worker(message));
                    },
                    Ok(Some(outcome)) => {
                        finished = Some(NativeSessionContinuityWorkerFinished { thread_ids: active.thread_ids, outcome });
                    },
                    Ok(None) => {
                        self.active = Some(active);
                    },
                }
            },
            None => {},
        }
        let mut started: Vec<String> = Vec::new();
        if self.active.is_none() && self.pending.len() > 0 {
            let batch = self.pending.sorted_keys();
            proof {
                assert(self.queued().len() > 0);
                let k = self.queued().choose();
                assert(self.queued().contains(k));
                assert(self.pending.map().contains_key(k));
            }
            match self.backend.start(batch.as_slice()) {
                Ok(worker) => {
                    let thread_ids = copy_texts(&batch);
                    self.pending = TextMap::new();
                    self.active = Some(ActiveWorker { thread_ids, worker });
                    started = batch;
                    proof {
                        assert(self.queued() =~= Set::<Seq<char>>::empty());
                        assert forall|i: int| 0 <= i < texts(started@).len() implies queued.contains(
                            #[trigger] texts(started@)[i],
                        ) by {
                            assert(texts(started@)[i] == started@[i]@);
                        }
                        assert forall|key: Seq<char>| #[trigger] queued.contains(key) implies exists|i: int|
                            0 <= i < texts(started@).len() && texts(started@)[i] == key by {
                            assert(self.pending.map().contains_key(key) || true);
                            let i = choose|i: int| 0 <= i < batch@.len() && batch@[i]@ == key;
                            assert(texts(started@)[i] == key);
                        }
                    }
                },
                Err(message) => {
                    return Err(WorkerError::Start(message));
                },
            }
        } else {
            proof {
                if self.active.is_none() {
                    assert(self.queued().len() == 0);
                    assert(self.queued() =~= Set::<Seq<char>>::empty());
                }
            }
        }
        let running = self.active.is_some();
        Ok(NativeSessionContinuityMaintenance { changed_threads, started_threads: started, finished, running })
    }

    /// Stops the running worker, if any; the queue is kept.
    pub fn shutdown(&mut self)
        ensures
            final(self).running_threads() is None,
            final(self).queued() == old(self).queued(),
    {
        match self.active.take() {
            Some(mut active) => active.worker.terminate(),
            None => {},
        }
    }
}

fn copy_texts(values: &Vec<String>) -> (result: Vec<String>)
    ensures
        texts(result@) == texts(values@),
{
    let mut out: Vec<String> = Vec::new();
    for i in 0..values.len()
        invariant
            texts(out@) == texts(values@.take(i as int)),
    {
        proof {
            assert(texts(values@.take(i + 1)) =~= texts(values@.take(i as int)).push(values@[i as int]@));
        }
        let copy = values[i].clone();
        out.push(copy);
        proof {
            assert(texts(out@) =~= texts(values@.take(i as int)).push(values@[i as int]@));
        }
    }
    proof {
        assert(values@.take(values@.len() as int) =~= values@);
    }
    out
}

} // verus!
