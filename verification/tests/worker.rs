use std::cell::RefCell;
use std::rc::Rc;

use codex_administrator::worker::{
    NativeSessionContinuityCoordinator, NativeSessionContinuityWorker, NativeSessionContinuityWorkerBackend,
    NativeSessionContinuityWorkerOutcome, WorkerError,
};

const A: &str = "aaaaaaaa-0000-4000-8000-000000000000";
const B: &str = "bbbbbbbb-0000-4000-8000-000000000000";
const C: &str = "cccccccc-0000-4000-8000-000000000000";

#[derive(Default)]
struct Log {
    started: Vec<Vec<String>>,
    finish_next: bool,
    refuse_start: bool,
    terminated: usize,
}

struct ScriptedWorker(Rc<RefCell<Log>>);

impl NativeSessionContinuityWorker for ScriptedWorker {
    fn try_finish(&mut self) -> Result<Option<NativeSessionContinuityWorkerOutcome>, String> {
        if self.0.borrow().finish_next {
            Ok(Some(NativeSessionContinuityWorkerOutcome { success: true, exit_code: Some(0), diagnostic: String::new() }))
        } else {
            Ok(None)
        }
    }

    fn terminate(&mut self) {
        self.0.borrow_mut().terminated += 1;
    }
}

struct ScriptedBackend(Rc<RefCell<Log>>);

impl NativeSessionContinuityWorkerBackend for ScriptedBackend {
    fn start(&mut self, thread_ids: &[String]) -> Result<Box<dyn NativeSessionContinuityWorker>, String> {
        if self.0.borrow().refuse_start {
            return Err("spawn failed".into());
        }
        self.0.borrow_mut().started.push(thread_ids.to_vec());
        Ok(Box::new(ScriptedWorker(self.0.clone())))
    }
}

fn ids(values: &[&str]) -> Vec<String> {
    values.iter().map(|v| v.to_string()).collect()
}

#[test]
fn one_worker_runs_at_a_time_over_the_sorted_queue() {
    let log = Rc::new(RefCell::new(Log::default()));
    let mut coordinator = NativeSessionContinuityCoordinator::new(ScriptedBackend(log.clone()));
    let round = coordinator.maintain_once(ids(&[C, A, C])).unwrap();
    assert_eq!(round.started_threads, ids(&[A, C]));
    assert!(round.running);
    assert!(round.finished.is_none());
    let round = coordinator.maintain_once(ids(&[B])).unwrap();
    assert!(round.started_threads.is_empty());
    assert!(round.running);
    log.borrow_mut().finish_next = true;
    let round = coordinator.maintain_once(vec![]).unwrap();
    assert_eq!(round.finished.unwrap().thread_ids, ids(&[A, C]));
    assert_eq!(round.started_threads, ids(&[B]));
    assert_eq!(log.borrow().started.len(), 2);
    coordinator.shutdown();
    assert_eq!(log.borrow().terminated, 1);
}

#[test]
fn refused_starts_keep_threads_queued() {
    let log = Rc::new(RefCell::new(Log { refuse_start: true, ..Log::default() }));
    let mut coordinator = NativeSessionContinuityCoordinator::new(ScriptedBackend(log.clone()));
    assert_eq!(coordinator.maintain_once(ids(&[A])).err(), Some(WorkerError::Start("spawn failed".into())));
    log.borrow_mut().refuse_start = false;
    let round = coordinator.maintain_once(vec![]).unwrap();
    assert_eq!(round.started_threads, ids(&[A]));
}

#[test]
fn invalid_thread_ids_are_refused() {
    let log = Rc::new(RefCell::new(Log::default()));
    let mut coordinator = NativeSessionContinuityCoordinator::new(Box::new(ScriptedBackend(log.clone())) as Box<dyn NativeSessionContinuityWorkerBackend>);
    assert_eq!(coordinator.enqueue_threads(&ids(&["not-a-thread"])), Err(WorkerError::InvalidThreadId));
    let round = coordinator.maintain_once(vec![]).unwrap();
    assert!(round.started_threads.is_empty());
    assert!(!round.running);
}
