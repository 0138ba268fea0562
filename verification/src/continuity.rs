//! Session continuity between the daily and the isolated app: how far each copy of a
//! thread has advanced, judged from the checkpoints of their newest turns.

use vstd::prelude::*;

use crate::text::{chars_equal, chars_of, is_blank, is_blank_text};

verus! {

#[derive(Debug, Clone, Copy, PartialEq, Eq, Structural)]
pub enum NativeTurnStatus {
    Completed,
    Interrupted,
    Failed,
    InProgress,
}

/// The last item of a turn.
#[derive(Debug, Clone, PartialEq, Eq)]
pub struct NativeTurnItemCheckpoint {
    pub id: String,
    pub item_type: String,
    pub status: Option<String>,
}

/// A turn as identified by its id and a fingerprint of its content.
#[derive(Debug, Clone, PartialEq, Eq)]
pub struct NativeTurnCheckpoint {
    pub id: String,
    pub fingerprint: String,
    pub status: NativeTurnStatus,
    pub item_count: usize,
    pub items_complete: bool,
    pub last_item: Option<NativeTurnItemCheckpoint>,
}

/// The newest turns of one copy of a thread, newest first.
#[derive(Debug, Clone, PartialEq, Eq)]
pub struct NativeSessionHead {
    pub thread_id: String,
    pub model_provider: String,
    pub turns: Vec<NativeTurnCheckpoint>,
    pub history_complete: bool,
}

#[derive(Debug, Clone, Copy, PartialEq, Eq, Structural)]
pub enum NativeSessionRelation {
    Equal,
    DailyAhead,
    IsolatedAhead,
    Diverged,
    Unknown,
}

/// Where one copy of a thread stands: its provider and its newest turn and item.
#[derive(Debug, Clone, PartialEq, Eq)]
pub struct NativeSessionCursor {
    pub model_provider: String,
    pub turn_id: Option<String>,
    pub turn_status: Option<NativeTurnStatus>,
    pub item_id: Option<String>,
    pub item_type: Option<String>,
    pub item_status: Option<String>,
    pub item_count: usize,
    pub items_complete: bool,
}

/// How the two copies of a thread relate.
#[derive(Debug, Clone, PartialEq, Eq)]
pub struct NativeSessionContinuity {
    pub thread_id: String,
    pub relation: NativeSessionRelation,
    pub common_turn_id: Option<String>,
    pub daily_head_id: Option<String>,
    pub isolated_head_id: Option<String>,
    pub daily_cursor: NativeSessionCursor,
    pub isolated_cursor: NativeSessionCursor,
}

/// Why a session head or a comparison was refused.
#[derive(Debug, Clone, Copy, PartialEq, Eq, Structural)]
pub enum ContinuityError {
    EmptyThreadId,
    EmptyModelProvider,
    EmptyTurnField,
    DuplicateTurnId,
    ItemWithoutCount,
    MissingLastItem,
    EmptyItemField,
    EmptyItemStatus,
    DifferentThreads,
}

pub open spec fn opt_view(value: Option<String>) -> Option<Seq<char>> {
    match value {
        Some(text) => Some(text@),
        None => None,
    }
}

/// Why the `i`-th turn of `turns` is refused, given the turns before it.
pub open spec fn turn_error(turns: Seq<NativeTurnCheckpoint>, i: int) -> Option<ContinuityError> {
    let turn = turns[i];
    if is_blank(turn.id@) || is_blank(turn.fingerprint@) {
        Some(ContinuityError::EmptyTurnField)
    } else if exists|j: int| 0 <= j < i && #[trigger] turns[j].id@ == turn.id@ {
        Some(ContinuityError::DuplicateTurnId)
    } else if turn.item_count == 0 && turn.last_item is Some {
        Some(ContinuityError::ItemWithoutCount)
    } else if turn.item_count > 0 && turn.last_item is None {
        Some(ContinuityError::MissingLastItem)
    } else {
        match turn.last_item {
            Some(item) => if is_blank(item.id@) || is_blank(item.item_type@) {
                Some(ContinuityError::EmptyItemField)
            } else if item.status matches Some(status) && status@.len() == 0 {
                Some(ContinuityError::EmptyItemStatus)
            } else {
                None
            },
            None => None,
        }
    }
}

/// The refusal of the first `count` turns: that of the first refused one.
pub open spec fn turns_error(turns: Seq<NativeTurnCheckpoint>, count: int) -> Option<ContinuityError>
    decreases count,
{
    if count <= 0 {
        None
    } else if turns_error(turns, count - 1) is Some {
        turns_error(turns, count - 1)
    } else {
        turn_error(turns, count - 1)
    }
}

/// Why a session head is refused: a blank thread id or provider, or a refused turn.
pub open spec fn head_error(head: &NativeSessionHead) -> Option<ContinuityError> {
    if is_blank(head.thread_id@) {
        Some(ContinuityError::EmptyThreadId)
    } else if is_blank(head.model_provider@) {
        Some(ContinuityError::EmptyModelProvider)
    } else {
        turns_error(head.turns@, head.turns@.len() as int)
    }
}

/// Two turns are the same turn: same id and same fingerprint.
pub open spec fn exact_turn(left: NativeTurnCheckpoint, right: NativeTurnCheckpoint) -> bool {
    left.id@ == right.id@ && left.fingerprint@ == right.fingerprint@
}

pub open spec fn has_exact(turns: Seq<NativeTurnCheckpoint>, turn: NativeTurnCheckpoint) -> bool {
    exists|i: int| 0 <= i < turns.len() && exact_turn(#[trigger] turns[i], turn)
}

/// The index of the newest daily turn that the isolated copy has too.
pub open spec fn common_index(daily: Seq<NativeTurnCheckpoint>, isolated: Seq<NativeTurnCheckpoint>) -> Option<int> {
    if exists|i: int| 0 <= i < daily.len() && has_exact(isolated, #[trigger] daily[i]) && forall|j: int|
        0 <= j < i ==> !has_exact(isolated, daily[j]) {
        Some(
            choose|i: int| 0 <= i < daily.len() && has_exact(isolated, #[trigger] daily[i]) && forall|j: int|
                0 <= j < i ==> !has_exact(isolated, daily[j]),
        )
    } else {
        None
    }
}

/// How the copies relate: equal when their newest turns are the same; one is ahead when
/// the other's newest turn is among its turns, or the other is empty with a complete
/// history; unknown when that cannot be told from incomplete histories; else diverged.
pub open spec fn relation_of(daily: &NativeSessionHead, isolated: &NativeSessionHead) -> NativeSessionRelation {
    let d = daily.turns@;
    let s = isolated.turns@;
    if d.len() == 0 && s.len() == 0 {
        NativeSessionRelation::Equal
    } else if d.len() > 0 && s.len() == 0 {
        if isolated.history_complete {
            NativeSessionRelation::DailyAhead
        } else {
            NativeSessionRelation::Unknown
        }
    } else if d.len() == 0 {
        if daily.history_complete {
            NativeSessionRelation::IsolatedAhead
        } else {
            NativeSessionRelation::Unknown
        }
    } else if exact_turn(d[0], s[0]) {
        NativeSessionRelation::Equal
    } else if has_exact(d, s[0]) {
        NativeSessionRelation::DailyAhead
    } else if has_exact(s, d[0]) {
        NativeSessionRelation::IsolatedAhead
    } else if common_index(d, s) is None && (!daily.history_complete || !isolated.history_complete) {
        NativeSessionRelation::Unknown
    } else {
        NativeSessionRelation::Diverged
    }
}

/// The cursor of a head: its provider, and its newest turn and that turn's last item.
pub open spec fn is_cursor_of(cursor: &NativeSessionCursor, head: &NativeSessionHead) -> bool {
    let turns = head.turns@;
    &&& cursor.model_provider@ == head.model_provider@
    &&& if turns.len() == 0 {
        &&& cursor.turn_id is None
        &&& cursor.turn_status is None
        &&& cursor.item_id is None
        &&& cursor.item_type is None
        &&& cursor.item_status is None
        &&& cursor.item_count == 0
        &&& cursor.items_complete
    } else {
        let latest = turns[0];
        &&& opt_view(cursor.turn_id) == Some(latest.id@)
        &&& cursor.turn_status == Some(latest.status)
        &&& cursor.item_count == latest.item_count
        &&& cursor.items_complete == latest.items_complete
        &&& match latest.last_item {
            Some(item) => {
                &&& opt_view(cursor.item_id) == Some(item.id@)
                &&& opt_view(cursor.item_type) == Some(item.item_type@)
                &&& opt_view(cursor.item_status) == opt_view(item.status)
            },
            None => cursor.item_id is None && cursor.item_type is None && cursor.item_status is None,
        }
    }
}

/// The outcome of comparing two heads: refused when either head is, or when they belong to
/// different threads; else their relation, common turn, newest turns and cursors.
pub open spec fn is_comparison(
    daily: &NativeSessionHead,
    isolated: &NativeSessionHead,
    result: Result<NativeSessionContinuity, ContinuityError>,
) -> bool {
    if head_error(daily) is Some {
        result == Err::<NativeSessionContinuity, ContinuityError>(head_error(daily).unwrap())
    } else if head_error(isolated) is Some {
        result == Err::<NativeSessionContinuity, ContinuityError>(head_error(isolated).unwrap())
    } else if daily.thread_id@ != isolated.thread_id@ {
        result == Err::<NativeSessionContinuity, ContinuityError>(ContinuityError::DifferentThreads)
    } else {
        match result {
            Ok(c) => {
                &&& c.thread_id@ == daily.thread_id@
                &&& c.relation == relation_of(daily, isolated)
                &&& opt_view(c.common_turn_id) == match common_index(daily.turns@, isolated.turns@) {
                    Some(i) => Some(daily.turns@[i].id@),
                    None => None,
                }
                &&& opt_view(c.daily_head_id) == if daily.turns@.len() > 0 {
                    Some(daily.turns@[0].id@)
                } else {
                    None
                }
                &&& opt_view(c.isolated_head_id) == if isolated.turns@.len() > 0 {
                    Some(isolated.turns@[0].id@)
                } else {
                    None
                }
                &&& is_cursor_of(&c.daily_cursor, daily)
                &&& is_cursor_of(&c.isolated_cursor, isolated)
            },
            Err(_) => false,
        }
    }
}

fn text_eq(left: &String, right: &String) -> (result: bool)
    ensures
        result == (left@ == right@),
{
    let l = chars_of(left.as_str());
    let r = chars_of(right.as_str());
    chars_equal(l.as_slice(), r.as_slice())
}

fn copy_opt(value: &Option<String>) -> (result: Option<String>)
    ensures
        opt_view(result) == opt_view(*value),
{
    match value {
        Some(text) => Some(text.clone()),
        None => None,
    }
}

fn check_turn(turns: &Vec<NativeTurnCheckpoint>, i: usize) -> (result: Result<(), ContinuityError>)
    requires
        i < turns@.len(),
    ensures
        match result {
            Ok(()) => turn_error(turns@, i as int) is None,
            Err(e) => turn_error(turns@, i as int) == Some(e),
        },
{
    let turn = &turns[i];
    if is_blank_text(turn.id.as_str()) || is_blank_text(turn.fingerprint.as_str()) {
        return Err(ContinuityError::EmptyTurnField);
    }
    for j in 0..i
        invariant
            i < turns@.len(),
            turn == &turns@[i as int],
            !is_blank(turn.id@) && !is_blank(turn.fingerprint@),
            forall|t: int| 0 <= t < j ==> #[trigger] turns@[t].id@ != turn.id@,
    {
        if text_eq(&turns[j].id, &turn.id) {
            proof {
                assert(turns@[j as int].id@ == turn.id@);
            }
            return Err(ContinuityError::DuplicateTurnId);
        }
    }
    if turn.item_count == 0 && turn.last_item.is_some() {
        return Err(ContinuityError::ItemWithoutCount);
    }
    if turn.item_count > 0 && turn.last_item.is_none() {
        return Err(ContinuityError::MissingLastItem);
    }
    match &turn.last_item {
        Some(item) => {
            if is_blank_text(item.id.as_str()) || is_blank_text(item.item_type.as_str()) {
                return Err(ContinuityError::EmptyItemField);
            }
            match &item.status {
                Some(status) => {
                    if chars_of(status.as_str()).len() == 0 {
                        return Err(ContinuityError::EmptyItemStatus);
                    }
                },
                None => {},
            }
            Ok(())
        },
        None => Ok(()),
    }
}

proof fn lemma_turns_error_extends(turns: Seq<NativeTurnCheckpoint>, count: int, total: int)
    requires
        0 <= count <= total,
        turns_error(turns, count) is Some,
    ensures
        turns_error(turns, total) == turns_error(turns, count),
    decreases total - count,
{
    if count < total {
        lemma_turns_error_extends(turns, count + 1, total);
    }
}

/// Checks a session head: a thread id and provider that are not blank, and turns with
/// non-blank, distinct ids, fingerprints and consistent last items.
pub fn validate_head(head: &NativeSessionHead) -> (result: Result<(), ContinuityError>)
    ensures
        match result {
            Ok(()) => head_error(head) is None,
            Err(e) => head_error(head) == Some(e),
        },
{
    if is_blank_text(head.thread_id.as_str()) {
        return Err(ContinuityError::EmptyThreadId);
    }
    if is_blank_text(head.model_provider.as_str()) {
        return Err(ContinuityError::EmptyModelProvider);
    }
    for i in 0..head.turns.len()
        invariant
            turns_error(head.turns@, i as int) is None,
            !is_blank(head.thread_id@),
            !is_blank(head.model_provider@),
    {
        if let Err(e) = check_turn(&head.turns, i) {
            proof {
                lemma_turns_error_extends(head.turns@, i + 1, head.turns@.len() as int);
            }
            return Err(e);
        }
    }
    Ok(())
}

/// Whether the two turns are the same turn.
pub fn is_exact_turn(left: &NativeTurnCheckpoint, right: &NativeTurnCheckpoint) -> (result: bool)
    ensures
        result == exact_turn(*left, *right),
{
    text_eq(&left.id, &right.id) && text_eq(&left.fingerprint, &right.fingerprint)
}

fn contains_exact(turns: &Vec<NativeTurnCheckpoint>, turn: &NativeTurnCheckpoint) -> (result: bool)
    ensures
        result == has_exact(turns@, *turn),
{
    for i in 0..turns.len()
        invariant
            forall|t: int| 0 <= t < i ==> !exact_turn(#[trigger] turns@[t], *turn),
    {
        if is_exact_turn(&turns[i], turn) {
            return true;
        }
    }
    false
}

fn find_common(daily: &Vec<NativeTurnCheckpoint>, isolated: &Vec<NativeTurnCheckpoint>) -> (result: Option<usize>)
    ensures
        match result {
            Some(i) => common_index(daily@, isolated@) == Some(i as int),
            None => common_index(daily@, isolated@) is None,
        },
{
    for i in 0..daily.len()
        invariant
            forall|t: int| 0 <= t < i ==> !has_exact(isolated@, #[trigger] daily@[t]),
    {
        if contains_exact(isolated, &daily[i]) {
            proof {
                let c = choose|c: int| 0 <= c < daily@.len() && has_exact(isolated@, #[trigger] daily@[c]) && forall|j: int|
                    0 <= j < c ==> !has_exact(isolated@, daily@[j]);
                if c < i {
                    assert(!has_exact(isolated@, daily@[c]));
                } else if c > i {
                    assert(!has_exact(isolated@, daily@[i as int]));
                }
            }
            return Some(i);
        }
    }
    None
}

/// The cursor of a head.
pub fn cursor_for_head(head: &NativeSessionHead) -> (result: NativeSessionCursor)
    ensures
        is_cursor_of(&result, head),
{
    if head.turns.len() == 0 {
        return NativeSessionCursor {
            model_provider: head.model_provider.clone(),
            turn_id: None,
            turn_status: None,
            item_id: None,
            item_type: None,
            item_status: None,
            item_count: 0,
            items_complete: true,
        };
    }
    let latest = &head.turns[0];
    let (item_id, item_type, item_status) = match &latest.last_item {
        Some(item) => (Some(item.id.clone()), Some(item.item_type.clone()), copy_opt(&item.status)),
        None => (None, None, None),
    };
    NativeSessionCursor {
        model_provider: head.model_provider.clone(),
        turn_id: Some(latest.id.clone()),
        turn_status: Some(latest.status),
        item_id,
        item_type,
        item_status,
        item_count: latest.item_count,
        items_complete: latest.items_complete,
    }
}

fn relation(daily: &NativeSessionHead, isolated: &NativeSessionHead, common: Option<usize>) -> (result: NativeSessionRelation)
    requires
        common matches Some(i) ==> common_index(daily.turns@, isolated.turns@) == Some(i as int),
        common is None ==> common_index(daily.turns@, isolated.turns@) is None,
    ensures
        result == relation_of(daily, isolated),
{
    let d = &daily.turns;
    let s = &isolated.turns;
    if d.len() == 0 && s.len() == 0 {
        NativeSessionRelation::Equal
    } else if d.len() > 0 && s.len() == 0 {
        if isolated.history_complete {
            NativeSessionRelation::DailyAhead
        } else {
            NativeSessionRelation::Unknown
        }
    } else if d.len() == 0 {
        if daily.history_complete {
            NativeSessionRelation::IsolatedAhead
        } else {
            NativeSessionRelation::Unknown
        }
    } else if is_exact_turn(&d[0], &s[0]) {
        NativeSessionRelation::Equal
    } else if contains_exact(d, &s[0]) {
        NativeSessionRelation::DailyAhead
    } else if contains_exact(s, &d[0]) {
        NativeSessionRelation::IsolatedAhead
    } else if common.is_none() && (!daily.history_complete || !isolated.history_complete) {
        NativeSessionRelation::Unknown
    } else {
        NativeSessionRelation::Diverged
    }
}

/// Compares the daily and isolated heads of one thread.
pub fn compare_native_session_heads(daily: &NativeSessionHead, isolated: &NativeSessionHead) -> (result: Result<
    NativeSessionContinuity,
    ContinuityError,
>)
    ensures
        is_comparison(daily, isolated, result),
{
    validate_head(daily)?;
    validate_head(isolated)?;
    if !text_eq(&daily.thread_id, &isolated.thread_id) {
        return Err(ContinuityError::DifferentThreads);
    }
    let common = find_common(&daily.turns, &isolated.turns);
    let relation = relation(daily, isolated, common);
    let common_turn_id = match common {
        Some(i) => Some(daily.turns[i].id.clone()),
        None => None,
    };
    let daily_head_id = if daily.turns.len() > 0 {
        Some(daily.turns[0].id.clone())
    } else {
        None
    };
    let isolated_head_id = if isolated.turns.len() > 0 {
        Some(isolated.turns[0].id.clone())
    } else {
        None
    };
    Ok(
        NativeSessionContinuity {
            thread_id: daily.thread_id.clone(),
            relation,
            common_turn_id,
            daily_head_id,
            isolated_head_id,
            daily_cursor: cursor_for_head(daily),
            isolated_cursor: cursor_for_head(isolated),
        },
    )
}

/// How many relations of each kind an observation found.
#[derive(Debug, Clone, PartialEq, Eq)]
pub struct NativeSessionContinuityReceipt {
    pub threads: usize,
    pub equal: usize,
    pub daily_ahead: usize,
    pub isolated_ahead: usize,
    pub diverged: usize,
    pub unknown: usize,
}

/// Both heads of a thread, their comparison, and when it was observed.
#[derive(Debug, Clone, PartialEq, Eq)]
pub struct NativeSessionContinuitySnapshot {
    pub daily: NativeSessionHead,
    pub isolated: NativeSessionHead,
    pub continuity: NativeSessionContinuity,
    pub observed_at_unix_ms: u64,
}

/// Reads the newest turns of a thread from one app.
///
/// `head_of` is what the app answers for a thread, and `reads` counts the reads made so
/// far. The contract describes an app whose threads do not move while they are observed: a
/// read answers `head_of`, changes nothing else, and counts one. Whether an app keeps to
/// that is up to its implementation.
pub trait NativeSessionHeadStore {
    spec fn head_of(&self, thread_id: Seq<char>) -> Result<NativeSessionHead, String>;

    spec fn reads(&self) -> nat;

    fn read_session_head(&mut self, thread_id: &str) -> (result: Result<NativeSessionHead, String>)
        ensures
            result == old(self).head_of(thread_id@),
            forall|t: Seq<char>| #[trigger] final(self).head_of(t) == old(self).head_of(t),
            final(self).reads() == old(self).reads() + 1,
    ;
}

/// Both apps answer a head for `thread_id`, and the two heads can be compared: each is
/// well formed and both name the same thread.
pub open spec fn heads_comparable(daily: Result<NativeSessionHead, String>, isolated: Result<NativeSessionHead, String>) -> bool {
    match (daily, isolated) {
        (Ok(d), Ok(i)) => head_error(&d) is None && head_error(&i) is None && d.thread_id@ == i.thread_id@,
        _ => false,
    }
}

/// The most threads one observation may cover.
pub const MAX_CONTINUITY_THREADS: usize = 4096;

/// Why an observation failed.
#[derive(Debug, Clone, PartialEq, Eq)]
pub enum ObservationError {
    /// The thread id to read back is blank.
    BlankThreadId,
    InvalidThreadIds,
    TooManyThreads,
    HeadUnavailable(String),
    Comparison(ContinuityError),
}

/// The number of `relations` equal to `relation`.
pub open spec fn relation_count(relations: Seq<NativeSessionRelation>, relation: NativeSessionRelation) -> nat
    decreases relations.len(),
{
    if relations.len() == 0 {
        0
    } else {
        relation_count(relations.drop_last(), relation) + if relations.last() == relation {
            1nat
        } else {
            0nat
        }
    }
}

/// The receipt counts `relations` by kind.
pub open spec fn counts(receipt: &NativeSessionContinuityReceipt, relations: Seq<NativeSessionRelation>) -> bool {
    &&& receipt.threads == relations.len()
    &&& receipt.equal == relation_count(relations, NativeSessionRelation::Equal)
    &&& receipt.daily_ahead == relation_count(relations, NativeSessionRelation::DailyAhead)
    &&& receipt.isolated_ahead == relation_count(relations, NativeSessionRelation::IsolatedAhead)
    &&& receipt.diverged == relation_count(relations, NativeSessionRelation::Diverged)
    &&& receipt.unknown == relation_count(relations, NativeSessionRelation::Unknown)
}

/// Every observed thread has exactly one relation: the counts of the kinds add up to the
/// number of threads.
pub proof fn lemma_relation_counts_sum(relations: Seq<NativeSessionRelation>)
    ensures
        relation_count(relations, NativeSessionRelation::Equal) + relation_count(relations, NativeSessionRelation::DailyAhead)
            + relation_count(relations, NativeSessionRelation::IsolatedAhead) + relation_count(
            relations,
            NativeSessionRelation::Diverged,
        ) + relation_count(relations, NativeSessionRelation::Unknown) == relations.len(),
    decreases relations.len(),
{
    if relations.len() > 0 {
        lemma_relation_counts_sum(relations.drop_last());
    }
}

/// The thread ids that an observation accepts: none blank, none repeated.
pub open spec fn valid_thread_ids(ids: Seq<String>) -> bool {
    &&& forall|i: int| 0 <= i < ids.len() ==> !is_blank(#[trigger] ids[i]@)
    &&& forall|i: int, j: int| 0 <= i < j < ids.len() ==> ids[i]@ != ids[j]@
}

pub open spec fn record_relations(records: Seq<(String, NativeSessionContinuitySnapshot)>) -> Seq<NativeSessionRelation> {
    records.map_values(|record: (String, NativeSessionContinuitySnapshot)| record.1.continuity.relation)
}

proof fn lemma_relation_count_bound(relations: Seq<NativeSessionRelation>, relation: NativeSessionRelation)
    ensures
        relation_count(relations, relation) <= relations.len(),
    decreases relations.len(),
{
    if relations.len() > 0 {
        lemma_relation_count_bound(relations.drop_last(), relation);
    }
}

fn count_relation(receipt: &mut NativeSessionContinuityReceipt, relation: NativeSessionRelation, Ghost(relations): Ghost<Seq<NativeSessionRelation>>)
    requires
        counts(old(receipt), relations),
        relations.len() < MAX_CONTINUITY_THREADS,
    ensures
        counts(final(receipt), relations.push(relation)),
{
    proof {
        lemma_relation_count_bound(relations, relation);
        assert(relations.push(relation).drop_last() =~= relations);
    }
    receipt.threads = receipt.threads + 1;
    match relation {
        NativeSessionRelation::Equal => receipt.equal = receipt.equal + 1,
        NativeSessionRelation::DailyAhead => receipt.daily_ahead = receipt.daily_ahead + 1,
        NativeSessionRelation::IsolatedAhead => receipt.isolated_ahead = receipt.isolated_ahead + 1,
        NativeSessionRelation::Diverged => receipt.diverged = receipt.diverged + 1,
        NativeSessionRelation::Unknown => receipt.unknown = receipt.unknown + 1,
    }
}

fn thread_id_accepted(thread_ids: &[String], i: usize) -> (result: bool)
    requires
        i < thread_ids@.len(),
        valid_thread_ids(thread_ids@.take(i as int)),
    ensures
        result == valid_thread_ids(thread_ids@.take(i + 1)),
{
    let thread_id = &thread_ids[i];
    let next = Ghost(thread_ids@.take(i + 1));
    proof {
        assert(next@[i as int] == thread_ids@[i as int]);
        assert forall|a: int| 0 <= a < i implies #[trigger] next@[a] == thread_ids@.take(i as int)[a] by {}
    }
    if is_blank_text(thread_id.as_str()) {
        return false;
    }
    for j in 0..i
        invariant
            i < thread_ids@.len(),
            thread_id == &thread_ids@[i as int],
            next@ == thread_ids@.take(i + 1),
            forall|t: int| 0 <= t < j ==> #[trigger] thread_ids@[t]@ != thread_id@,
    {
        if text_eq(&thread_ids[j], thread_id) {
            proof {
                assert(next@[j as int] == thread_ids@[j as int]);
                assert(next@[i as int] == thread_ids@[i as int]);
                assert(next@[j as int]@ == next@[i as int]@);
            }
            return false;
        }
    }
    proof {
        assert forall|a: int, b: int| 0 <= a < b < next@.len() implies next@[a]@ != next@[b]@ by {
            if b < i {
                assert(thread_ids@.take(i as int)[a] == next@[a]);
                assert(thread_ids@.take(i as int)[b] == next@[b]);
            }
        }
        assert forall|a: int| 0 <= a < next@.len() implies !is_blank(#[trigger] next@[a]@) by {
            if a < i {
                assert(thread_ids@.take(i as int)[a] == next@[a]);
            }
        }
    }
    true
}

/// Observes the relation of each thread's two copies, in order, reading both heads from
/// the stores and comparing them. Returns the counts and a snapshot per thread, stamped
/// with `observed_at_unix_ms`.
pub fn observe_native_session_continuity<D: NativeSessionHeadStore, I: NativeSessionHeadStore>(
    daily: &mut D,
    isolated: &mut I,
    thread_ids: &[String],
    observed_at_unix_ms: u64,
) -> (result: Result<(NativeSessionContinuityReceipt, Vec<(String, NativeSessionContinuitySnapshot)>), ObservationError>)
    ensures
        !valid_thread_ids(thread_ids@) ==> result is Err,
        thread_ids@.len() > MAX_CONTINUITY_THREADS ==> result is Err,
        thread_ids@.len() == 0 ==> (result matches Ok((receipt, records)) && records@.len() == 0 && receipt.threads
            == 0 && receipt.equal == 0 && receipt.daily_ahead == 0 && receipt.isolated_ahead == 0 && receipt.diverged
            == 0 && receipt.unknown == 0),
        result matches Err(ObservationError::InvalidThreadIds) ==> !valid_thread_ids(thread_ids@),
        result matches Err(ObservationError::TooManyThreads) ==> thread_ids@.len() > MAX_CONTINUITY_THREADS,
        result matches Err(ObservationError::HeadUnavailable(_)) ==> thread_ids@.len() > 0,
        result matches Err(ObservationError::Comparison(_)) ==> thread_ids@.len() > 0,
        valid_thread_ids(thread_ids@) && thread_ids@.len() <= MAX_CONTINUITY_THREADS && (forall|i: int|
            0 <= i < thread_ids@.len() ==> heads_comparable(
                old(daily).head_of(#[trigger] thread_ids@[i]@),
                old(isolated).head_of(thread_ids@[i]@),
            )) ==> result is Ok,
        forall|t: Seq<char>| #[trigger] final(daily).head_of(t) == old(daily).head_of(t),
        forall|t: Seq<char>| #[trigger] final(isolated).head_of(t) == old(isolated).head_of(t),
        final(daily).reads() <= old(daily).reads() + thread_ids@.len(),
        final(isolated).reads() <= old(isolated).reads() + thread_ids@.len(),
        result is Ok ==> final(daily).reads() == old(daily).reads() + thread_ids@.len() && final(isolated).reads()
            == old(isolated).reads() + thread_ids@.len(),
        result matches Ok((receipt, records)) ==> {
            &&& valid_thread_ids(thread_ids@)
            &&& records@.len() == thread_ids@.len()
            &&& forall|i: int|
                0 <= i < records@.len() ==> old(daily).head_of(thread_ids@[i]@) == Ok::<NativeSessionHead, String>(
                    (#[trigger] records@[i]).1.daily,
                ) && old(isolated).head_of(thread_ids@[i]@) == Ok::<NativeSessionHead, String>(records@[i].1.isolated)
            &&& counts(&receipt, record_relations(records@))
            &&& forall|i: int| 0 <= i < records@.len() ==> {
                let record = #[trigger] records@[i];
                &&& record.0@ == thread_ids@[i]@
                &&& record.1.observed_at_unix_ms == observed_at_unix_ms
                &&& is_comparison(&record.1.daily, &record.1.isolated, Ok(record.1.continuity))
            }
        },
{
    let mut receipt = NativeSessionContinuityReceipt {
        threads: 0,
        equal: 0,
        daily_ahead: 0,
        isolated_ahead: 0,
        diverged: 0,
        unknown: 0,
    };
    let mut records: Vec<(String, NativeSessionContinuitySnapshot)> = Vec::new();
    proof {
        assert(record_relations(records@) =~= Seq::<NativeSessionRelation>::empty());
        assert(thread_ids@.take(0) =~= Seq::<String>::empty());
    }
    for i in 0..thread_ids.len()
        invariant
            valid_thread_ids(thread_ids@.take(i as int)),
            i <= MAX_CONTINUITY_THREADS,
            records@.len() == i,
            counts(&receipt, record_relations(records@)),
            forall|t: int| 0 <= t < records@.len() ==> {
                let record = #[trigger] records@[t];
                &&& record.0@ == thread_ids@[t]@
                &&& record.1.observed_at_unix_ms == observed_at_unix_ms
                &&& is_comparison(&record.1.daily, &record.1.isolated, Ok(record.1.continuity))
            },
            forall|t: int|
                0 <= t < records@.len() ==> old(daily).head_of(thread_ids@[t]@) == Ok::<NativeSessionHead, String>(
                    (#[trigger] records@[t]).1.daily,
                ) && old(isolated).head_of(thread_ids@[t]@) == Ok::<NativeSessionHead, String>(records@[t].1.isolated),
            forall|t: Seq<char>| #[trigger] daily.head_of(t) == old(daily).head_of(t),
            forall|t: Seq<char>| #[trigger] isolated.head_of(t) == old(isolated).head_of(t),
            daily.reads() == old(daily).reads() + i,
            isolated.reads() == old(isolated).reads() + i,
    {
        if !thread_id_accepted(thread_ids, i) {
            proof {
                lemma_valid_prefix(thread_ids@, i as int + 1);
            }
            return Err(ObservationError::InvalidThreadIds);
        }
        if i + 1 > MAX_CONTINUITY_THREADS {
            return Err(ObservationError::TooManyThreads);
        }
        let thread_id = &thread_ids[i];
        let ghost tid = thread_ids@[i as int]@;
        let daily_head = match daily.read_session_head(thread_id.as_str()) {
            Ok(head) => head,
            Err(message) => {
                proof {
                    assert(!heads_comparable(old(daily).head_of(tid), old(isolated).head_of(tid)));
                }
                return Err(ObservationError::HeadUnavailable(message));
            },
        };
        let isolated_head = match isolated.read_session_head(thread_id.as_str()) {
            Ok(head) => head,
            Err(message) => {
                proof {
                    assert(!heads_comparable(old(daily).head_of(tid), old(isolated).head_of(tid)));
                }
                return Err(ObservationError::HeadUnavailable(message));
            },
        };
        let continuity = match compare_native_session_heads(&daily_head, &isolated_head) {
            Ok(c) => c,
            Err(e) => {
                proof {
                    assert(!heads_comparable(old(daily).head_of(tid), old(isolated).head_of(tid)));
                }
                return Err(ObservationError::Comparison(e));
            },
        };
        let ghost before = record_relations(records@);
        count_relation(&mut receipt, continuity.relation, Ghost(before));
        let ghost relation = continuity.relation;
        let snapshot = NativeSessionContinuitySnapshot {
            daily: daily_head,
            isolated: isolated_head,
            continuity,
            observed_at_unix_ms,
        };
        records.push((thread_id.clone(), snapshot));
        proof {
            assert(record_relations(records@) =~= before.push(relation));
        }
    }
    proof {
        assert(thread_ids@.take(thread_ids@.len() as int) =~= thread_ids@);
    }
    Ok((receipt, records))
}

proof fn lemma_valid_prefix(ids: Seq<String>, count: int)
    requires
        0 <= count <= ids.len(),
        !valid_thread_ids(ids.take(count)),
    ensures
        !valid_thread_ids(ids),
{
    let prefix = ids.take(count);
    if exists|i: int| 0 <= i < prefix.len() && is_blank(#[trigger] prefix[i]@) {
        let i = choose|i: int| 0 <= i < prefix.len() && is_blank(#[trigger] prefix[i]@);
        assert(prefix[i] == ids[i]);
    } else {
        let (a, b) = choose|a: int, b: int| 0 <= a < b < prefix.len() && prefix[a]@ == prefix[b]@;
        assert(prefix[a] == ids[a]);
        assert(prefix[b] == ids[b]);
    }
}

/// The relation seen from the other copy.
pub open spec fn mirrored(relation: NativeSessionRelation) -> NativeSessionRelation {
    match relation {
        NativeSessionRelation::DailyAhead => NativeSessionRelation::IsolatedAhead,
        NativeSessionRelation::IsolatedAhead => NativeSessionRelation::DailyAhead,
        other => other,
    }
}

proof fn lemma_common_minimal(daily: Seq<NativeTurnCheckpoint>, isolated: Seq<NativeTurnCheckpoint>, i: int)
    requires
        0 <= i < daily.len(),
        has_exact(isolated, daily[i]),
    ensures
        common_index(daily, isolated) is Some,
    decreases i,
{
    if exists|j: int| 0 <= j < i && has_exact(isolated, #[trigger] daily[j]) {
        let j = choose|j: int| 0 <= j < i && has_exact(isolated, #[trigger] daily[j]);
        lemma_common_minimal(daily, isolated, j);
    } else {
        assert(has_exact(isolated, daily[i]) && forall|j: int| 0 <= j < i ==> !has_exact(isolated, daily[j]));
    }
}

proof fn lemma_common_symmetric(daily: Seq<NativeTurnCheckpoint>, isolated: Seq<NativeTurnCheckpoint>)
    ensures
        (common_index(daily, isolated) is Some) == (common_index(isolated, daily) is Some),
{
    if common_index(daily, isolated) is Some {
        let i = common_index(daily, isolated).unwrap();
        let k = choose|k: int| 0 <= k < isolated.len() && exact_turn(#[trigger] isolated[k], daily[i]);
        assert(exact_turn(daily[i], isolated[k]));
        assert(has_exact(daily, isolated[k]));
        lemma_common_minimal(isolated, daily, k);
    }
    if common_index(isolated, daily) is Some {
        let k = common_index(isolated, daily).unwrap();
        let i = choose|i: int| 0 <= i < daily.len() && exact_turn(#[trigger] daily[i], isolated[k]);
        assert(exact_turn(isolated[k], daily[i]));
        assert(has_exact(isolated, daily[i]));
        lemma_common_minimal(daily, isolated, i);
    }
}

/// Swapping the daily and isolated copies mirrors their relation (the one ahead becomes
/// the other), except when both are non-empty, their newest turns differ, and each newest
/// turn appears among the other copy's turns.
pub proof fn lemma_relation_mirrors(daily: &NativeSessionHead, isolated: &NativeSessionHead)
    requires
        !(daily.turns@.len() > 0 && isolated.turns@.len() > 0 && !exact_turn(daily.turns@[0], isolated.turns@[0])
            && has_exact(daily.turns@, isolated.turns@[0]) && has_exact(isolated.turns@, daily.turns@[0])),
    ensures
        relation_of(isolated, daily) == mirrored(relation_of(daily, isolated)),
{
    lemma_common_symmetric(daily.turns@, isolated.turns@);
}

/// Where the stored continuity of `thread_id` is among the records of the continuity
/// manifest: refused for a blank thread id; else the index of the record kept under that
/// exact id, or `None` when there is none.
pub fn read_native_session_continuity(
    records: &Vec<(String, NativeSessionContinuitySnapshot)>,
    thread_id: &str,
) -> (result: Result<Option<usize>, ObservationError>)
    ensures
        is_blank(thread_id@) <==> result == Err::<Option<usize>, ObservationError>(ObservationError::BlankThreadId),
        result is Err ==> is_blank(thread_id@),
        result matches Ok(Some(i)) ==> i < records@.len() && records@[i as int].0@ == thread_id@ && forall|j: int|
            0 <= j < i ==> records@[j].0@ != thread_id@,
        result == Ok::<Option<usize>, ObservationError>(None) ==> forall|j: int|
            0 <= j < records@.len() ==> (#[trigger] records@[j]).0@ != thread_id@,
{
    if is_blank_text(thread_id) {
        return Err(ObservationError::BlankThreadId);
    }
    let wanted = chars_of(thread_id);
    for i in 0..records.len()
        invariant
            wanted@ == thread_id@,
            !is_blank(thread_id@),
            forall|j: int| 0 <= j < i ==> (#[trigger] records@[j]).0@ != thread_id@,
    {
        let key = chars_of(records[i].0.as_str());
        if chars_equal(key.as_slice(), wanted.as_slice()) {
            return Ok(Some(i));
        }
    }
    Ok(None)
}

} // verus!
