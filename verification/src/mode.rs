//! The agent mode selected for the host and the task it is linked to.

use vstd::prelude::*;
use vstd::string::*;

use crate::strings::string_from_chars;
use crate::text::{trim_chars, trimmed};

verus! {

/// Which agent drives a task: a Grok model registered natively, or the host's own GPT.
#[derive(Debug, Clone, Copy, PartialEq, Eq, Structural)]
pub enum AgentMode {
    GrokNativeModel,
    NativeGptMain,
}

/// The selected mode, a revision that counts changes, and the linked task.
#[derive(Debug, Clone, PartialEq, Eq)]
pub struct ModeState {
    pub mode: AgentMode,
    pub revision: u64,
    pub task_id: Option<String>,
}

/// The longest task id, in bytes.
pub const MAX_TASK_ID_BYTES: usize = 128;

/// Why a task could not be linked.
#[derive(Debug, Clone, Copy, PartialEq, Eq)]
pub enum ModeError {
    BlankTaskId,
    TaskIdTooLong,
}

/// `n + 1`, held at `u64::MAX`.
pub open spec fn saturating_increment(n: u64) -> u64 {
    if n == u64::MAX {
        n
    } else {
        (n + 1) as u64
    }
}

/// The view of an optional string.
pub open spec fn optional_text(value: Option<String>) -> Option<Seq<char>> {
    match value {
        Some(text) => Some(text@),
        None => None,
    }
}

impl Default for ModeState {
    fn default() -> (result: Self)
        ensures
            result.mode == AgentMode::NativeGptMain,
            result.revision == 0,
            result.task_id is None,
    {
        ModeState { mode: AgentMode::NativeGptMain, revision: 0, task_id: None }
    }
}

impl ModeState {
    /// Selects `mode`; the revision counts only actual changes.
    pub fn set_mode(&mut self, mode: AgentMode)
        ensures
            final(self).mode == mode,
            final(self).task_id == old(self).task_id,
            final(self).revision == if old(self).mode == mode {
                old(self).revision
            } else {
                saturating_increment(old(self).revision)
            },
    {
        if self.mode != mode {
            self.mode = mode;
            self.revision = self.revision.saturating_add(1);
        }
    }

    /// Links the task named by `task_id` without its surrounding whitespace; the revision
    /// counts only actual changes.
    pub fn link_task(&mut self, task_id: &str) -> (result: Result<(), ModeError>)
        ensures
            final(self).mode == old(self).mode,
            trimmed(task_id@).len() == 0 ==> result == Err::<(), ModeError>(ModeError::BlankTaskId),
            trimmed(task_id@).len() > 0 && vstd::utf8::encode_utf8(trimmed(task_id@)).len() > MAX_TASK_ID_BYTES
                ==> result == Err::<(), ModeError>(ModeError::TaskIdTooLong),
            result is Err ==> final(self).revision == old(self).revision && final(self).task_id == old(self).task_id,
            result is Ok <==> trimmed(task_id@).len() > 0 && vstd::utf8::encode_utf8(trimmed(task_id@)).len()
                <= MAX_TASK_ID_BYTES,
            result is Ok ==> optional_text(final(self).task_id) == Some(trimmed(task_id@)),
            result is Ok ==> final(self).revision == if optional_text(old(self).task_id) == Some(
                trimmed(task_id@),
            ) {
                old(self).revision
            } else {
                saturating_increment(old(self).revision)
            },
    {
        let chars = trim_chars(task_id);
        if chars.len() == 0 {
            return Err(ModeError::BlankTaskId);
        }
        let task = string_from_chars(chars.as_slice());
        if task.as_str().as_bytes().len() > MAX_TASK_ID_BYTES {
            return Err(ModeError::TaskIdTooLong);
        }
        let unchanged = match &self.task_id {
            Some(current) => *current == task,
            None => false,
        };
        if !unchanged {
            self.task_id = Some(task);
            self.revision = self.revision.saturating_add(1);
        }
        Ok(())
    }
}

} // verus!
