use codex_administrator::continuity::{
    compare_native_session_heads, observe_native_session_continuity, read_native_session_continuity, ContinuityError, NativeSessionHead,
    NativeSessionHeadStore, NativeSessionRelation, NativeTurnCheckpoint, NativeTurnStatus, ObservationError,
};

const THREAD: &str = "0123abcd-0123-4567-89ab-0123456789ab";

fn turn(id: &str, fingerprint: &str) -> NativeTurnCheckpoint {
    NativeTurnCheckpoint {
        id: id.into(),
        fingerprint: fingerprint.into(),
        status: NativeTurnStatus::Completed,
        item_count: 0,
        items_complete: true,
        last_item: None,
    }
}

fn head(provider: &str, turns: Vec<NativeTurnCheckpoint>) -> NativeSessionHead {
    NativeSessionHead { thread_id: THREAD.into(), model_provider: provider.into(), turns, history_complete: true }
}

#[test]
fn heads_relate_by_their_shared_turn_history() {
    let a = turn("t1", "f1");
    let b = turn("t2", "f2");
    let c = turn("t3", "f3");
    let equal = compare_native_session_heads(&head("openai", vec![b.clone(), a.clone()]), &head("grok", vec![b.clone(), a.clone()]))
        .unwrap();
    assert_eq!(equal.relation, NativeSessionRelation::Equal);
    let ahead = compare_native_session_heads(&head("openai", vec![b.clone(), a.clone()]), &head("grok", vec![a.clone()]))
        .unwrap();
    assert_eq!(ahead.relation, NativeSessionRelation::DailyAhead);
    assert_eq!(ahead.common_turn_id.as_deref(), Some("t1"));
    let behind = compare_native_session_heads(&head("openai", vec![a.clone()]), &head("grok", vec![c.clone(), a.clone()]))
        .unwrap();
    assert_eq!(behind.relation, NativeSessionRelation::IsolatedAhead);
    let diverged = compare_native_session_heads(&head("openai", vec![b, a.clone()]), &head("grok", vec![c, a])).unwrap();
    assert_eq!(diverged.relation, NativeSessionRelation::Diverged);
    assert_eq!(diverged.daily_cursor.model_provider, "openai");
    assert_eq!(diverged.isolated_cursor.turn_id.as_deref(), Some("t3"));
}

#[test]
fn heads_of_different_threads_or_blank_providers_are_refused() {
    let mut other = head("grok", vec![]);
    other.thread_id = "ffffffff-0000-4567-89ab-0123456789ab".into();
    assert_eq!(compare_native_session_heads(&head("openai", vec![]), &other), Err(ContinuityError::DifferentThreads));
    assert_eq!(
        compare_native_session_heads(&head(" ", vec![]), &head("grok", vec![])),
        Err(ContinuityError::EmptyModelProvider)
    );
}

struct FixedHeads {
    heads: Vec<NativeSessionHead>,
    reads: usize,
}

impl NativeSessionHeadStore for FixedHeads {
    fn head_of(&self, _thread_id: vstd::seq::Seq<char>) -> Result<NativeSessionHead, String> {
        unreachable!("a specification function, never called")
    }

    fn reads(&self) -> vstd::prelude::nat {
        unreachable!("a specification function, never called")
    }

    fn read_session_head(&mut self, thread_id: &str) -> Result<NativeSessionHead, String> {
        self.reads += 1;
        self.heads.iter().find(|head| head.thread_id == thread_id).cloned().ok_or_else(|| "thread not found".to_string())
    }
}

#[test]
fn observation_counts_each_thread_once_by_its_relation() {
    let a = turn("t1", "f1");
    let b = turn("t2", "f2");
    let mut daily = FixedHeads { heads: vec![head("openai", vec![b.clone(), a.clone()])], reads: 0 };
    let mut isolated = FixedHeads { heads: vec![head("grok", vec![a])], reads: 0 };
    let (receipt, records) =
        observe_native_session_continuity(&mut daily, &mut isolated, &[THREAD.to_string()], 1_700_000_000_000).unwrap();
    assert_eq!(receipt.threads, 1);
    assert_eq!(receipt.daily_ahead, 1);
    assert_eq!(receipt.equal + receipt.isolated_ahead + receipt.diverged + receipt.unknown, 0);
    assert_eq!(records.len(), 1);
    assert_eq!(records[0].0, THREAD);
    assert_eq!(records[0].1.observed_at_unix_ms, 1_700_000_000_000);
    assert_eq!(records[0].1.daily, daily.heads[0]);
    assert_eq!(daily.reads, 1);
    assert_eq!(isolated.reads, 1);
    assert_eq!(read_native_session_continuity(&records, THREAD), Ok(Some(0)));
    assert_eq!(read_native_session_continuity(&records, "0123abcd-0123-4567-89ab-0123456789ac"), Ok(None));
    assert_eq!(read_native_session_continuity(&records, " \t"), Err(ObservationError::BlankThreadId));

    let repeated = observe_native_session_continuity(
        &mut daily,
        &mut isolated,
        &[THREAD.to_string(), THREAD.to_string()],
        1,
    );
    assert_eq!(repeated, Err(ObservationError::InvalidThreadIds));
    let missing = observe_native_session_continuity(
        &mut daily,
        &mut isolated,
        &["ffffffff-0000-4567-89ab-0123456789ab".to_string()],
        1,
    );
    assert_eq!(missing, Err(ObservationError::HeadUnavailable("thread not found".to_string())));
}
