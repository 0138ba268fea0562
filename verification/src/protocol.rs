//! What the runtime clients read from the JSON-RPC messages of the official app-server and of
//! the Grok agent, and the wire names of approval decisions.

use vstd::prelude::*;

use crate::json::{json_as_text, json_clone, json_get, json_member, json_text};
use crate::text::{chars_equal, chars_of};
use crate::winpath::{is_absolute_path, path_is_absolute};

verus! {

/// How the client introduces itself to the app-server.
#[derive(Debug, Clone, Copy, PartialEq, Eq)]
pub struct ClientInfo<'a> {
    pub name: &'a str,
    pub title: &'a str,
    pub version: &'a str,
}

/// An answer to an approval request.
#[derive(Debug, Clone, Copy, PartialEq, Eq, Structural)]
pub enum ApprovalDecision {
    Accept,
    AcceptForSession,
    Decline,
    Cancel,
}

/// The wire name of a decision.
pub open spec fn decision_name(decision: ApprovalDecision) -> Seq<char> {
    match decision {
        ApprovalDecision::Accept => "accept"@,
        ApprovalDecision::AcceptForSession => "acceptForSession"@,
        ApprovalDecision::Decline => "decline"@,
        ApprovalDecision::Cancel => "cancel"@,
    }
}

impl ApprovalDecision {
    /// The wire name of the decision.
    pub fn as_str(self) -> (result: &'static str)
        ensures
            result@ == decision_name(self),
    {
        match self {
            ApprovalDecision::Accept => "accept",
            ApprovalDecision::AcceptForSession => "acceptForSession",
            ApprovalDecision::Decline => "decline",
            ApprovalDecision::Cancel => "cancel",
        }
    }
}

/// The text at `first`, then `second`, then `third` in nested objects of `value`.
pub open spec fn text_at3(value: serde_json::Value, first: Seq<char>, second: Seq<char>, third: Seq<char>) -> Option<
    Seq<char>,
> {
    match json_member(value, first) {
        Some(a) => match json_member(a, second) {
            Some(b) => match json_member(b, third) {
                Some(c) => json_text(c),
                None => None,
            },
            None => None,
        },
        None => None,
    }
}

/// The text at `first`, then `second` in nested objects of `value`.
pub open spec fn text_at2(value: serde_json::Value, first: Seq<char>, second: Seq<char>) -> Option<Seq<char>> {
    match json_member(value, first) {
        Some(a) => match json_member(a, second) {
            Some(b) => json_text(b),
            None => None,
        },
        None => None,
    }
}

pub open spec fn opt_view(value: Option<String>) -> Option<Seq<char>> {
    match value {
        Some(text) => Some(text@),
        None => None,
    }
}

fn read_text3(value: &serde_json::Value, first: &str, second: &str, third: &str) -> (result: Option<String>)
    ensures
        opt_view(result) == text_at3(*value, first@, second@, third@),
{
    match json_get(value, first) {
        Some(a) => match json_get(a, second) {
            Some(b) => match json_get(b, third) {
                Some(c) => json_as_text(c),
                None => None,
            },
            None => None,
        },
        None => None,
    }
}

fn read_text2(value: &serde_json::Value, first: &str, second: &str) -> (result: Option<String>)
    ensures
        opt_view(result) == text_at2(*value, first@, second@),
{
    match json_get(value, first) {
        Some(a) => match json_get(a, second) {
            Some(b) => json_as_text(b),
            None => None,
        },
        None => None,
    }
}

/// The thread id that an app-server response reports at `result.thread.id`.
pub fn parse_thread_id(response: &serde_json::Value) -> (result: Option<String>)
    ensures
        opt_view(result) == text_at3(*response, "result"@, "thread"@, "id"@),
{
    read_text3(response, "result", "thread", "id")
}

/// The turn id that an app-server response reports at `result.turn.id`.
pub fn parse_turn_id(response: &serde_json::Value) -> (result: Option<String>)
    ensures
        opt_view(result) == text_at3(*response, "result"@, "turn"@, "id"@),
{
    read_text3(response, "result", "turn", "id")
}

/// The session id that a Grok agent response reports at `result.sessionId`.
pub fn parse_session_id(response: &serde_json::Value) -> (result: Option<String>)
    ensures
        opt_view(result) == text_at2(*response, "result"@, "sessionId"@),
{
    read_text2(response, "result", "sessionId")
}

/// A session update that the Grok agent sent.
pub struct GrokSessionUpdate {
    pub session_id: String,
    pub kind: String,
    pub payload: serde_json::Value,
}

/// The session update a message carries: a `session/update` notification with a text
/// `params.sessionId`, whose `params.update` has a text `sessionUpdate` kind.
pub open spec fn session_update_of(message: serde_json::Value) -> Option<(Seq<char>, Seq<char>, serde_json::Value)> {
    if !(json_member(message, "method"@) matches Some(method) && json_text(method) == Some("session/update"@)) {
        None
    } else {
        match (text_at2(message, "params"@, "sessionId"@), json_member(message, "params"@)) {
            (Some(session_id), Some(params)) => match json_member(params, "update"@) {
                Some(update) => match json_member(update, "sessionUpdate"@) {
                    Some(kind) => match json_text(kind) {
                        Some(kind) => Some((session_id, kind, update)),
                        None => None,
                    },
                    None => None,
                },
                None => None,
            },
            _ => None,
        }
    }
}

/// The session update that `message` carries, if it is one.
pub fn parse_session_update(message: &serde_json::Value) -> (result: Option<GrokSessionUpdate>)
    ensures
        match (result, session_update_of(*message)) {
            (Some(update), Some((session_id, kind, payload))) => update.session_id@ == session_id && update.kind@
                == kind && update.payload == payload,
            (None, None) => true,
            _ => false,
        },
{
    let is_update = match json_get(message, "method") {
        Some(method) => match json_as_text(method) {
            Some(text) => chars_equal(chars_of(text.as_str()).as_slice(), chars_of("session/update").as_slice()),
            None => false,
        },
        None => false,
    };
    if !is_update {
        return None;
    }
    let session_id = match read_text2(message, "params", "sessionId") {
        Some(id) => id,
        None => {
            return None;
        },
    };
    let params = match json_get(message, "params") {
        Some(params) => params,
        None => {
            return None;
        },
    };
    let update = match json_get(params, "update") {
        Some(update) => update,
        None => {
            return None;
        },
    };
    let kind = match json_get(update, "sessionUpdate") {
        Some(kind) => match json_as_text(kind) {
            Some(kind) => kind,
            None => {
                return None;
            },
        },
        None => {
            return None;
        },
    };
    Some(GrokSessionUpdate { session_id, kind, payload: json_clone(update) })
}

/// Why a Grok session request was refused.
#[derive(Debug, Clone, Copy, PartialEq, Eq, Structural)]
pub enum ProtocolError {
    RelativeCwd,
}

/// Checks that a session's working directory is an absolute path.
pub fn validate_absolute_cwd(cwd: &str) -> (result: Result<(), ProtocolError>)
    ensures
        result is Ok <==> is_absolute_path(cwd@),
        result is Err ==> result == Err::<(), ProtocolError>(ProtocolError::RelativeCwd),
{
    if path_is_absolute(cwd) {
        Ok(())
    } else {
        Err(ProtocolError::RelativeCwd)
    }
}

} // verus!
