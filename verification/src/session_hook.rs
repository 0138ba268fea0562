//! The prompt hook that tells a session where it stands against its twin: the checks on
//! what the host sends, and the coordinates it answers with.

use vstd::prelude::*;

use crate::continuity::{NativeSessionContinuitySnapshot, NativeSessionCursor, NativeSessionRelation, NativeTurnStatus};
use crate::goal_sync::{is_thread_id, valid_thread_id};
use crate::text::{char_is_control, chars_of, is_control_char, is_blank, is_blank_text};

verus! {

/// The text a continuity hook command carries, by which it is recognized.
pub const CONTINUITY_HOOK_MARKER: &'static str = "session-continuity-hook";

/// The largest hook input, in bytes.
pub const MAX_HOOK_INPUT_BYTES: usize = 65536;

/// The longest hook command, in bytes.
pub const MAX_HOOK_COMMAND_BYTES: usize = 8192;

/// The longest turn id, in bytes.
pub const MAX_TURN_ID_BYTES: usize = 256;

/// Why the hook refuses its input or a command.
#[derive(Debug, Clone, Copy, PartialEq, Eq, Structural)]
pub enum HookError {
    InputTooLarge,
    UnexpectedEvent,
    InvalidThreadId,
    InvalidTurnId,
    InvalidCommand,
    ConfigTooLarge,
    InvalidConfig,
    RootNotObject,
    HooksNotObject,
    PromptHooksNotArray,
}

/// Which of the two sessions the hook runs in.
#[derive(Debug, Clone, Copy, PartialEq, Eq, Structural)]
pub enum NativeSessionLane {
    Daily,
    Isolated,
}

/// A text without control characters.
pub open spec fn free_of_controls(s: Seq<char>) -> bool {
    forall|i: int| 0 <= i < s.len() ==> !is_control_char(#[trigger] s[i])
}

fn no_controls(text: &str) -> (result: bool)
    ensures
        result == free_of_controls(text@),
{
    let chars = chars_of(text);
    for i in 0..chars.len()
        invariant
            chars@ == text@,
            forall|t: int| 0 <= t < i ==> !is_control_char(#[trigger] chars@[t]),
    {
        if char_is_control(chars[i]) {
            proof {
                assert(is_control_char(text@[i as int]));
            }
            return false;
        }
    }
    true
}

/// A turn id: not blank, at most 256 bytes, without control characters.
pub open spec fn is_turn_id(id: Seq<char>) -> bool {
    !is_blank(id) && vstd::utf8::encode_utf8(id).len() <= MAX_TURN_ID_BYTES && free_of_controls(id)
}

/// Checks a turn id.
pub fn validate_turn_id(turn_id: &str) -> (result: Result<(), HookError>)
    ensures
        result is Ok <==> is_turn_id(turn_id@),
        result is Err ==> result == Err::<(), HookError>(HookError::InvalidTurnId),
{
    if is_blank_text(turn_id) || crate::text::byte_len(turn_id) > MAX_TURN_ID_BYTES || !no_controls(turn_id) {
        return Err(HookError::InvalidTurnId);
    }
    Ok(())
}

/// Checks what the host sent with a prompt: its size, that it announces a submitted
/// prompt, and the session and turn it names.
pub fn validate_hook_input(input_len: usize, event_name: &str, session_id: &str, turn_id: &str) -> (result: Result<(), HookError>)
    ensures
        input_len > MAX_HOOK_INPUT_BYTES ==> result == Err::<(), HookError>(HookError::InputTooLarge),
        input_len <= MAX_HOOK_INPUT_BYTES && event_name@ != "UserPromptSubmit"@ ==> result == Err::<(), HookError>(
            HookError::UnexpectedEvent,
        ),
        input_len <= MAX_HOOK_INPUT_BYTES && event_name@ == "UserPromptSubmit"@ && !is_thread_id(session_id@) ==> result
            == Err::<(), HookError>(HookError::InvalidThreadId),
        input_len <= MAX_HOOK_INPUT_BYTES && event_name@ == "UserPromptSubmit"@ && is_thread_id(session_id@) ==> (result
            is Ok <==> is_turn_id(turn_id@)) && (result is Err ==> result == Err::<(), HookError>(HookError::InvalidTurnId)),
{
    if input_len > MAX_HOOK_INPUT_BYTES {
        return Err(HookError::InputTooLarge);
    }
    let event = chars_of(event_name);
    let expected = chars_of("UserPromptSubmit");
    if !crate::text::chars_equal(event.as_slice(), expected.as_slice()) {
        return Err(HookError::UnexpectedEvent);
    }
    if !valid_thread_id(session_id) {
        return Err(HookError::InvalidThreadId);
    }
    validate_turn_id(turn_id)
}

/// `needle` occurs in `text`.
pub open spec fn contains_text(text: Seq<char>, needle: Seq<char>) -> bool {
    exists|i: int| 0 <= i && i + needle.len() <= text.len() && #[trigger] text.subrange(i, i + needle.len()) == needle
}

fn occurs_in(text: &[char], needle: &[char]) -> (result: bool)
    ensures
        result == contains_text(text@, needle@),
{
    let n = text.len();
    let m = needle.len();
    if m > n {
        return false;
    }
    if m == 0 {
        proof {
            assert(text@.subrange(0, 0 + needle@.len() as int) =~= needle@);
        }
        return true;
    }
    let last = n - m;
    let mut i: usize = 0;
    while i <= last
        invariant
            m <= n == text@.len(),
            m == needle@.len(),
            last == n - m,
            m > 0,
            i <= last + 1,
            forall|j: int| 0 <= j < i ==> #[trigger] text@.subrange(j, j + m) != needle@,
        decreases last + 1 - i,
    {
        let window = crate::text::slice_chars(text, i, i + m);
        if crate::text::chars_equal(window.as_slice(), needle) {
            return true;
        }
        i += 1;
    }
    false
}

/// Whether a hook command is the continuity hook's.
pub fn is_continuity_hook_command(command: &str) -> (result: bool)
    ensures
        result == contains_text(command@, CONTINUITY_HOOK_MARKER@),
{
    let chars = chars_of(command);
    let marker = chars_of(CONTINUITY_HOOK_MARKER);
    occurs_in(chars.as_slice(), marker.as_slice())
}

/// A hook command: not blank, at most 8192 bytes, without control characters, and
/// carrying the continuity marker.
pub open spec fn is_hook_command(command: Seq<char>) -> bool {
    &&& !is_blank(command)
    &&& vstd::utf8::encode_utf8(command).len() <= MAX_HOOK_COMMAND_BYTES
    &&& free_of_controls(command)
    &&& contains_text(command, CONTINUITY_HOOK_MARKER@)
}

/// Checks the command the continuity hook installs.
pub fn validate_hook_command(command: &str) -> (result: Result<(), HookError>)
    ensures
        result is Ok <==> is_hook_command(command@),
        result is Err ==> result == Err::<(), HookError>(HookError::InvalidCommand),
{
    if is_blank_text(command) || crate::text::byte_len(command) > MAX_HOOK_COMMAND_BYTES || !no_controls(command)
        || !is_continuity_hook_command(command) {
        return Err(HookError::InvalidCommand);
    }
    Ok(())
}

// ---------------------------------------------------------------------------------------
// The coordinates
// ---------------------------------------------------------------------------------------

pub open spec fn digit_char(d: nat) -> char {
    (('0' as u8) + (d as u8)) as char
}

/// The decimal form of `n`.
pub open spec fn decimal_text(n: nat) -> Seq<char>
    decreases n,
{
    if n < 10 {
        seq![digit_char(n)]
    } else {
        decimal_text(n / 10).push(digit_char(n % 10))
    }
}

/// The decimal form of `n`.
pub fn decimal_chars(n: u64) -> (result: Vec<char>)
    ensures
        result@ == decimal_text(n as nat),
    decreases n,
{
    let d = ((48u8 + (n % 10) as u8) as char);
    if n < 10 {
        let mut out: Vec<char> = Vec::new();
        out.push(d);
        proof {
            assert(out@ =~= seq![digit_char(n as nat)]);
        }
        out
    } else {
        let mut out = decimal_chars(n / 10);
        out.push(d);
        out
    }
}

/// The name of a relation, as the coordinates write it.
pub open spec fn relation_text(relation: NativeSessionRelation) -> Seq<char> {
    match relation {
        NativeSessionRelation::Equal => "equal"@,
        NativeSessionRelation::DailyAhead => "dailyAhead"@,
        NativeSessionRelation::IsolatedAhead => "isolatedAhead"@,
        NativeSessionRelation::Diverged => "diverged"@,
        NativeSessionRelation::Unknown => "unknown"@,
    }
}

/// The name of a relation.
pub fn relation_name(relation: NativeSessionRelation) -> (result: &'static str)
    ensures
        result@ == relation_text(relation),
{
    match relation {
        NativeSessionRelation::Equal => "equal",
        NativeSessionRelation::DailyAhead => "dailyAhead",
        NativeSessionRelation::IsolatedAhead => "isolatedAhead",
        NativeSessionRelation::Diverged => "diverged",
        NativeSessionRelation::Unknown => "unknown",
    }
}

/// The name of a turn status, as the coordinates write it.
pub open spec fn status_text(status: NativeTurnStatus) -> Seq<char> {
    match status {
        NativeTurnStatus::Completed => "completed"@,
        NativeTurnStatus::Interrupted => "interrupted"@,
        NativeTurnStatus::Failed => "failed"@,
        NativeTurnStatus::InProgress => "inProgress"@,
    }
}

/// The name of a turn status.
pub fn turn_status_name(status: NativeTurnStatus) -> (result: &'static str)
    ensures
        result@ == status_text(status),
{
    match status {
        NativeTurnStatus::Completed => "completed",
        NativeTurnStatus::Interrupted => "interrupted",
        NativeTurnStatus::Failed => "failed",
        NativeTurnStatus::InProgress => "inProgress",
    }
}

/// A value or `none`.
pub open spec fn or_none(value: Option<String>) -> Seq<char> {
    match value {
        Some(text) => text@,
        None => "none"@,
    }
}

pub open spec fn bool_text(value: bool) -> Seq<char> {
    if value {
        "true"@
    } else {
        "false"@
    }
}

pub open spec fn lane_text(lane: NativeSessionLane) -> Seq<char> {
    match lane {
        NativeSessionLane::Daily => "daily"@,
        NativeSessionLane::Isolated => "isolated"@,
    }
}

/// One session's cursor, as `label.field=value` pairs separated by `; `.
pub open spec fn cursor_text(label: Seq<char>, cursor: NativeSessionCursor) -> Seq<char> {
    label + ".provider="@ + cursor.model_provider@ + "; "@ + label + ".turn="@ + or_none(cursor.turn_id) + "; "@ + label
        + ".turn_status="@ + (match cursor.turn_status {
        Some(status) => status_text(status),
        None => "none"@,
    }) + "; "@ + label + ".item="@ + or_none(cursor.item_id) + "; "@ + label + ".item_type="@ + or_none(cursor.item_type)
        + "; "@ + label + ".item_status="@ + or_none(cursor.item_status) + "; "@ + label + ".item_count="@
        + decimal_text(cursor.item_count as nat) + "; "@ + label + ".items_complete="@ + bool_text(cursor.items_complete)
}

/// The coordinates the hook adds to a prompt: machine metadata about both sessions of the
/// thread, one item per line, and the rule for working on them.
pub open spec fn context_text(
    snapshot: &NativeSessionContinuitySnapshot,
    lane: NativeSessionLane,
    current_turn_id: Seq<char>,
    observed_age_ms: u64,
) -> Seq<char> {
    let c = snapshot.continuity;
    "Codex Administrator dual-session coordinates (machine metadata only; no message bodies).\n"@ + "logical_thread="@
        + c.thread_id@ + "\n"@ + "current_lane="@ + lane_text(lane) + "\n"@ + "current_turn="@ + current_turn_id + "\n"@
        + "relation="@ + relation_text(c.relation) + "\n"@ + "common_completed_turn="@ + or_none(c.common_turn_id)
        + "\n"@ + "observed_at_unix_ms="@ + decimal_text(snapshot.observed_at_unix_ms as nat) + "\n"@
        + "observed_age_ms="@ + decimal_text(observed_age_ms as nat) + "\n"@ + cursor_text("daily"@, c.daily_cursor)
        + "\n"@ + cursor_text("isolated"@, c.isolated_cursor) + "\n"@
        + "coordination_rule=single-writer mainline; retain both heads on divergence; handoff or merge explicitly; never last-writer-wins."@
}

fn append(out: &mut Vec<char>, text: &str)
    ensures
        final(out)@ == old(out)@ + text@,
{
    let chars = chars_of(text);
    let ghost start = out@;
    for i in 0..chars.len()
        invariant
            chars@ == text@,
            out@ == start + chars@.take(i as int),
    {
        out.push(chars[i]);
        proof {
            assert(chars@.take(i + 1) =~= chars@.take(i as int).push(chars@[i as int]));
            assert(start + chars@.take(i + 1) =~= (start + chars@.take(i as int)).push(chars@[i as int]));
        }
    }
    proof {
        assert(chars@.take(chars@.len() as int) =~= chars@);
    }
}

fn append_chars(out: &mut Vec<char>, chars: &Vec<char>)
    ensures
        final(out)@ == old(out)@ + chars@,
{
    let ghost start = out@;
    for i in 0..chars.len()
        invariant
            out@ == start + chars@.take(i as int),
    {
        out.push(chars[i]);
        proof {
            assert(chars@.take(i + 1) =~= chars@.take(i as int).push(chars@[i as int]));
            assert(start + chars@.take(i + 1) =~= (start + chars@.take(i as int)).push(chars@[i as int]));
        }
    }
    proof {
        assert(chars@.take(chars@.len() as int) =~= chars@);
    }
}

fn append_optional(out: &mut Vec<char>, value: &Option<String>)
    ensures
        final(out)@ == old(out)@ + or_none(*value),
{
    match value {
        Some(text) => append(out, text.as_str()),
        None => append(out, "none"),
    }
}

fn append_field(out: &mut Vec<char>, label: &str, name: &str)
    ensures
        final(out)@ == old(out)@ + label@ + name@,
{
    let ghost start = out@;
    append(out, label);
    append(out, name);
    proof {
        assert(start + label@ + name@ =~= start + label@ + name@);
    }
}

/// One session's cursor.
pub fn render_cursor(label: &str, cursor: &NativeSessionCursor) -> (result: Vec<char>)
    ensures
        result@ == cursor_text(label@, *cursor),
{
    let mut out: Vec<char> = Vec::new();
    append_field(&mut out, label, ".provider=");
    append(&mut out, cursor.model_provider.as_str());
    append(&mut out, "; ");
    append_field(&mut out, label, ".turn=");
    append_optional(&mut out, &cursor.turn_id);
    append(&mut out, "; ");
    append_field(&mut out, label, ".turn_status=");
    match cursor.turn_status {
        Some(status) => append(&mut out, turn_status_name(status)),
        None => append(&mut out, "none"),
    }
    append(&mut out, "; ");
    append_field(&mut out, label, ".item=");
    append_optional(&mut out, &cursor.item_id);
    append(&mut out, "; ");
    append_field(&mut out, label, ".item_type=");
    append_optional(&mut out, &cursor.item_type);
    append(&mut out, "; ");
    append_field(&mut out, label, ".item_status=");
    append_optional(&mut out, &cursor.item_status);
    append(&mut out, "; ");
    append_field(&mut out, label, ".item_count=");
    let count = decimal_chars(cursor.item_count as u64);
    append_chars(&mut out, &count);
    append(&mut out, "; ");
    append_field(&mut out, label, ".items_complete=");
    append(&mut out, if cursor.items_complete { "true" } else { "false" });
    proof {
        assert(out@ =~= cursor_text(label@, *cursor));
    }
    out
}

/// How long ago, in milliseconds, an observation made at `observed_at_ms` was, at `now_ms`;
/// zero when the clock is unknown or behind the observation.
pub fn observed_age_ms(now_ms: Option<u64>, observed_at_ms: u64) -> (result: u64)
    ensures
        result == match now_ms {
            Some(now) => if now >= observed_at_ms {
                (now - observed_at_ms) as u64
            } else {
                0
            },
            None => 0,
        },
{
    match now_ms {
        Some(now) => now.saturating_sub(observed_at_ms),
        None => 0,
    }
}

/// The coordinates the hook adds to a prompt in `lane` for turn `current_turn_id`.
pub fn render_context(
    snapshot: &NativeSessionContinuitySnapshot,
    lane: NativeSessionLane,
    current_turn_id: &str,
    observed_age_ms: u64,
) -> (result: String)
    ensures
        result@ == context_text(snapshot, lane, current_turn_id@, observed_age_ms),
{
    let c = &snapshot.continuity;
    let mut out: Vec<char> = Vec::new();
    append(&mut out, "Codex Administrator dual-session coordinates (machine metadata only; no message bodies).\n");
    append(&mut out, "logical_thread=");
    append(&mut out, c.thread_id.as_str());
    append(&mut out, "\n");
    append(&mut out, "current_lane=");
    append(&mut out, match lane {
        NativeSessionLane::Daily => "daily",
        NativeSessionLane::Isolated => "isolated",
    });
    append(&mut out, "\n");
    append(&mut out, "current_turn=");
    append(&mut out, current_turn_id);
    append(&mut out, "\n");
    append(&mut out, "relation=");
    append(&mut out, relation_name(c.relation));
    append(&mut out, "\n");
    append(&mut out, "common_completed_turn=");
    append_optional(&mut out, &c.common_turn_id);
    append(&mut out, "\n");
    append(&mut out, "observed_at_unix_ms=");
    let observed = decimal_chars(snapshot.observed_at_unix_ms);
    append_chars(&mut out, &observed);
    append(&mut out, "\n");
    append(&mut out, "observed_age_ms=");
    let age = decimal_chars(observed_age_ms);
    append_chars(&mut out, &age);
    append(&mut out, "\n");
    let daily = render_cursor("daily", &c.daily_cursor);
    append_chars(&mut out, &daily);
    append(&mut out, "\n");
    let isolated = render_cursor("isolated", &c.isolated_cursor);
    append_chars(&mut out, &isolated);
    append(&mut out, "\n");
    append(
        &mut out,
        "coordination_rule=single-writer mainline; retain both heads on divergence; handoff or merge explicitly; never last-writer-wins.",
    );
    proof {
        assert(out@ =~= context_text(snapshot, lane, current_turn_id@, observed_age_ms));
    }
    crate::strings::string_from_chars(out.as_slice())
}

/// The most bytes the hooks configuration may hold.
pub const MAX_HOOK_CONFIG_BYTES: usize = 2097152;

/// Where the continuity hook was installed, and whether the hooks configuration changed.
#[derive(Debug, Clone, PartialEq, Eq)]
pub struct NativeSessionHookInstallReceipt {
    pub path: String,
    pub updated: bool,
}

/// The receipt of rendering `rendered` over the hooks configuration `existing` at `path`:
/// refused when the rendering exceeds `MAX_HOOK_CONFIG_BYTES`, else updated when the bytes
/// differ.
pub fn hook_install_receipt(path: String, existing: &[u8], rendered: &[u8]) -> (result: Result<
    NativeSessionHookInstallReceipt,
    HookError,
>)
    ensures
        rendered@.len() > MAX_HOOK_CONFIG_BYTES ==> result == Err::<NativeSessionHookInstallReceipt, HookError>(
            HookError::ConfigTooLarge,
        ),
        rendered@.len() <= MAX_HOOK_CONFIG_BYTES ==> (result matches Ok(receipt) && receipt.path@ == path@
            && receipt.updated == (existing@ != rendered@)),
{
    if rendered.len() > MAX_HOOK_CONFIG_BYTES {
        return Err(HookError::ConfigTooLarge);
    }
    let mut same = existing.len() == rendered.len();
    let mut i: usize = 0;
    while same && i < existing.len()
        invariant
            i <= existing@.len(),
            same ==> existing@.len() == rendered@.len(),
            same == (existing@.len() == rendered@.len() && forall|t: int| 0 <= t < i ==> existing@[t] == rendered@[t]),
        decreases existing@.len() - i,
    {
        if existing[i] != rendered[i] {
            same = false;
        }
        i += 1;
    }
    proof {
        if same {
            assert(existing@ =~= rendered@);
        }
    }
    Ok(NativeSessionHookInstallReceipt { path, updated: !same })
}

} // verus!
