//! The official app-server's replies during Goal synchronisation, as the library reads
//! them: which reply line answers a request, what `initialize` must report, and the Goal
//! that a `thread/goal/*` reply carries. Reading the lines and comparing CODEX_HOME paths
//! on disk are left to the caller.

use vstd::prelude::*;

use crate::goal_sync::{goal_view, GoalView, NativeGoalIntent, NativeGoalStatus};
use crate::json::{
    json_as_bool, json_as_i64, json_as_text, json_bool, json_clone, json_get, json_int, json_is_null, json_member,
    json_null, json_parse, json_text, parse_json,
};
use crate::codec::{json_quote, json_string_literal};
use crate::model_discovery::starts_with;
use crate::session_hook::{decimal_chars, decimal_text};
use crate::strings::{push_chars, string_push};
use crate::text::{chars_equal, chars_of};

verus! {

/// Why a reply of the app-server was refused.
#[derive(Debug, Clone, PartialEq, Eq)]
pub enum AppServerError {
    InvalidJson,
    RequestFailed { code: i64, message: String },
    MissingResult,
    MissingCodexHome,
    NotOfficialServer,
    MissingGoal,
    InvalidGoal,
    GoalNotPreserved,
    ClearNotConfirmed,
}

/// The text of member `key`, when it is a string.
pub open spec fn member_text(value: serde_json::Value, key: Seq<char>) -> Option<Seq<char>> {
    match json_member(value, key) {
        Some(member) => json_text(member),
        None => None,
    }
}

/// The integer of member `key`, when it is one that fits `i64`.
pub open spec fn member_int(value: serde_json::Value, key: Seq<char>) -> Option<i64> {
    match json_member(value, key) {
        Some(member) => json_int(member),
        None => None,
    }
}

/// The boolean of member `key`, when it is one.
pub open spec fn member_bool(value: serde_json::Value, key: Seq<char>) -> Option<bool> {
    match json_member(value, key) {
        Some(member) => json_bool(member),
        None => None,
    }
}

/// The code a failed request reports: its `code` member, or 0 without one.
pub open spec fn failure_code(error: serde_json::Value) -> i64 {
    match member_int(error, "code"@) {
        Some(code) => code,
        None => 0,
    }
}

/// The message a failed request reports: its `message` member, or a fixed text without one.
pub open spec fn failure_message(error: serde_json::Value) -> Seq<char> {
    match member_text(error, "message"@) {
        Some(text) => text,
        None => "unknown app-server error"@,
    }
}

/// Reads one reply line for the request `request_id`: `Ok(None)` for a message that
/// answers something else, the request's failure when the reply carries an `error`, else
/// its `result`.
pub fn reply_outcome(line: &[u8], request_id: &str) -> (outcome: Result<Option<serde_json::Value>, AppServerError>)
    ensures
        match json_parse(line@) {
            None => outcome == Err::<Option<serde_json::Value>, AppServerError>(AppServerError::InvalidJson),
            Some(message) => if member_text(message, "id"@) != Some(request_id@) {
                outcome == Ok::<Option<serde_json::Value>, AppServerError>(None)
            } else {
                match json_member(message, "error"@) {
                    Some(error) => outcome matches Err(AppServerError::RequestFailed { code, message: text })
                        && code == failure_code(error) && text@ == failure_message(error),
                    None => match json_member(message, "result"@) {
                        Some(result) => outcome == Ok::<Option<serde_json::Value>, AppServerError>(Some(result)),
                        None => outcome == Err::<Option<serde_json::Value>, AppServerError>(
                            AppServerError::MissingResult,
                        ),
                    },
                }
            },
        },
{
    let message = match parse_json(line) {
        Ok(message) => message,
        Err(_) => return Err(AppServerError::InvalidJson),
    };
    let id = match json_get(&message, "id") {
        Some(id) => json_as_text(id),
        None => None,
    };
    let answers = match id {
        Some(id) => {
            let left = chars_of(id.as_str());
            let right = chars_of(request_id);
            chars_equal(left.as_slice(), right.as_slice())
        },
        None => false,
    };
    if !answers {
        return Ok(None);
    }
    if let Some(error) = json_get(&message, "error") {
        let code = match json_get(error, "code") {
            Some(code) => match json_as_i64(code) {
                Some(code) => code,
                None => 0,
            },
            None => 0,
        };
        let text = match json_get(error, "message") {
            Some(text) => json_as_text(text),
            None => None,
        };
        let text = match text {
            Some(text) => text,
            None => {
                proof {
                    reveal_strlit("unknown app-server error");
                }
                String::from_str("unknown app-server error")
            },
        };
        return Err(AppServerError::RequestFailed { code, message: text });
    }
    match json_get(&message, "result") {
        Some(result) => Ok(Some(json_clone(result))),
        None => Err(AppServerError::MissingResult),
    }
}

/// The user agent the official app-server reports begins with this.
pub open spec fn official_agent_prefix() -> Seq<char> {
    "Codex Desktop/"@
}

/// Reads the result of `initialize`: the CODEX_HOME the server reports, which it must
/// report, and its user agent (empty when absent), which must be the official one. The
/// caller compares that CODEX_HOME with the one it started the server in.
pub fn initialize_outcome(result: &serde_json::Value) -> (outcome: Result<String, AppServerError>)
    ensures
        match member_text(*result, "codexHome"@) {
            None => outcome == Err::<String, AppServerError>(AppServerError::MissingCodexHome),
            Some(home) => {
                let agent = match member_text(*result, "userAgent"@) {
                    Some(agent) => agent,
                    None => Seq::empty(),
                };
                if starts_with(agent, official_agent_prefix()) {
                    outcome matches Ok(reported) && reported@ == home
                } else {
                    outcome == Err::<String, AppServerError>(AppServerError::NotOfficialServer)
                }
            },
        },
{
    let home = match json_get(result, "codexHome") {
        Some(home) => json_as_text(home),
        None => None,
    };
    let home = match home {
        Some(home) => home,
        None => return Err(AppServerError::MissingCodexHome),
    };
    let agent = match json_get(result, "userAgent") {
        Some(agent) => json_as_text(agent),
        None => None,
    };
    let agent = match agent {
        Some(agent) => chars_of(agent.as_str()),
        None => Vec::new(),
    };
    let prefix = chars_of("Codex Desktop/");
    proof {
        reveal_strlit("Codex Desktop/");
    }
    if agent.len() < prefix.len() {
        return Err(AppServerError::NotOfficialServer);
    }
    for i in 0..prefix.len()
        invariant
            prefix@ == official_agent_prefix(),
            agent@.len() >= prefix@.len(),
            member_text(*result, "codexHome"@) == Some(home@),
            agent@ == match member_text(*result, "userAgent"@) {
                Some(agent) => agent,
                None => Seq::<char>::empty(),
            },
            forall|j: int| 0 <= j < i ==> agent@[j] == prefix@[j],
    {
        if agent[i] != prefix[i] {
            proof {
                assert(agent@.take(prefix@.len() as int)[i as int] != prefix@[i as int]);
            }
            return Err(AppServerError::NotOfficialServer);
        }
    }
    proof {
        assert(agent@.take(prefix@.len() as int) =~= prefix@);
    }
    Ok(home)
}

/// The Goal status a name stands for, as the app-server writes it.
pub open spec fn status_named(name: Seq<char>) -> Option<NativeGoalStatus> {
    if name == "active"@ {
        Some(NativeGoalStatus::Active)
    } else if name == "paused"@ {
        Some(NativeGoalStatus::Paused)
    } else if name == "blocked"@ {
        Some(NativeGoalStatus::Blocked)
    } else if name == "usageLimited"@ {
        Some(NativeGoalStatus::UsageLimited)
    } else if name == "budgetLimited"@ {
        Some(NativeGoalStatus::BudgetLimited)
    } else if name == "complete"@ {
        Some(NativeGoalStatus::Complete)
    } else {
        None
    }
}

fn named(chars: &Vec<char>, name: &str) -> (result: bool)
    ensures
        result == (chars@ == name@),
{
    let expected = chars_of(name);
    chars_equal(chars.as_slice(), expected.as_slice())
}

fn status_of_name(name: &str) -> (result: Option<NativeGoalStatus>)
    ensures
        result == status_named(name@),
{
    proof {
        reveal_strlit("active");
        reveal_strlit("paused");
        reveal_strlit("blocked");
        reveal_strlit("usageLimited");
        reveal_strlit("budgetLimited");
        reveal_strlit("complete");
    }
    let chars = chars_of(name);
    if named(&chars, "active") {
        Some(NativeGoalStatus::Active)
    } else if named(&chars, "paused") {
        Some(NativeGoalStatus::Paused)
    } else if named(&chars, "blocked") {
        Some(NativeGoalStatus::Blocked)
    } else if named(&chars, "usageLimited") {
        Some(NativeGoalStatus::UsageLimited)
    } else if named(&chars, "budgetLimited") {
        Some(NativeGoalStatus::BudgetLimited)
    } else if named(&chars, "complete") {
        Some(NativeGoalStatus::Complete)
    } else {
        None
    }
}

/// The token budget a Goal value carries: none when `tokenBudget` is absent or `null`, the
/// integer when it is one that fits `i64`; `None` when it is anything else.
pub open spec fn reply_budget(value: serde_json::Value) -> Option<Option<i64>> {
    match json_member(value, "tokenBudget"@) {
        None => Some(None),
        Some(budget) => if json_null(budget) {
            Some(None)
        } else {
            match json_int(budget) {
                Some(n) => Some(Some(n)),
                None => None,
            }
        },
    }
}

/// The Goal a value describes: an `objective` string, a `status` name and a token budget;
/// other members are ignored. `None` when the value describes none.
pub open spec fn reply_goal(value: serde_json::Value) -> Option<GoalView> {
    match (member_text(value, "objective"@), member_text(value, "status"@), reply_budget(value)) {
        (Some(objective), Some(name), Some(token_budget)) => match status_named(name) {
            Some(status) => Some(GoalView { objective, status, token_budget }),
            None => None,
        },
        _ => None,
    }
}

fn parse_goal(value: &serde_json::Value) -> (result: Option<NativeGoalIntent>)
    ensures
        match result {
            Some(goal) => reply_goal(*value) == Some(goal_view(goal)),
            None => reply_goal(*value) is None,
        },
{
    let objective = match json_get(value, "objective") {
        Some(objective) => json_as_text(objective),
        None => None,
    };
    let status = match json_get(value, "status") {
        Some(status) => json_as_text(status),
        None => None,
    };
    let budget = match json_get(value, "tokenBudget") {
        None => Some(None),
        Some(budget) => if json_is_null(budget) {
            Some(None)
        } else {
            match json_as_i64(budget) {
                Some(n) => Some(Some(n)),
                None => None,
            }
        },
    };
    match (objective, status, budget) {
        (Some(objective), Some(name), Some(token_budget)) => match status_of_name(name.as_str()) {
            Some(status) => Some(NativeGoalIntent { objective, status, token_budget }),
            None => None,
        },
        _ => None,
    }
}

/// Reads the result of `thread/goal/get`: no Goal when `goal` is absent or `null`, else the
/// Goal it describes, which must be one.
pub fn goal_get_outcome(result: &serde_json::Value) -> (outcome: Result<Option<NativeGoalIntent>, AppServerError>)
    ensures
        match json_member(*result, "goal"@) {
            None => outcome == Ok::<Option<NativeGoalIntent>, AppServerError>(None),
            Some(goal) => if json_null(goal) {
                outcome == Ok::<Option<NativeGoalIntent>, AppServerError>(None)
            } else {
                match reply_goal(goal) {
                    Some(view) => outcome matches Ok(Some(read)) && goal_view(read) == view,
                    None => outcome == Err::<Option<NativeGoalIntent>, AppServerError>(AppServerError::InvalidGoal),
                }
            },
        },
{
    let goal = match json_get(result, "goal") {
        Some(goal) => goal,
        None => return Ok(None),
    };
    if json_is_null(goal) {
        return Ok(None);
    }
    match parse_goal(goal) {
        Some(read) => Ok(Some(read)),
        None => Err(AppServerError::InvalidGoal),
    }
}

/// Reads the result of `thread/goal/set`: it must carry the Goal that was set, unchanged.
pub fn goal_set_outcome(result: &serde_json::Value, expected: &NativeGoalIntent) -> (outcome: Result<(), AppServerError>)
    ensures
        match json_member(*result, "goal"@) {
            None => outcome == Err::<(), AppServerError>(AppServerError::MissingGoal),
            Some(goal) => match reply_goal(goal) {
                None => outcome == Err::<(), AppServerError>(AppServerError::InvalidGoal),
                Some(view) => if view == goal_view(*expected) {
                    outcome == Ok::<(), AppServerError>(())
                } else {
                    outcome == Err::<(), AppServerError>(AppServerError::GoalNotPreserved)
                },
            },
        },
{
    let goal = match json_get(result, "goal") {
        Some(goal) => goal,
        None => return Err(AppServerError::MissingGoal),
    };
    let returned = match parse_goal(goal) {
        Some(returned) => returned,
        None => return Err(AppServerError::InvalidGoal),
    };
    let left = chars_of(returned.objective.as_str());
    let right = chars_of(expected.objective.as_str());
    if chars_equal(left.as_slice(), right.as_slice()) && returned.status == expected.status && returned.token_budget
        == expected.token_budget {
        Ok(())
    } else {
        Err(AppServerError::GoalNotPreserved)
    }
}

/// Reads the result of `thread/goal/clear`: it must confirm with `cleared: true`.
pub fn goal_clear_outcome(result: &serde_json::Value) -> (outcome: Result<(), AppServerError>)
    ensures
        if member_bool(*result, "cleared"@) == Some(true) {
            outcome == Ok::<(), AppServerError>(())
        } else {
            outcome == Err::<(), AppServerError>(AppServerError::ClearNotConfirmed)
        },
{
    let cleared = match json_get(result, "cleared") {
        Some(cleared) => json_as_bool(cleared),
        None => None,
    };
    match cleared {
        Some(true) => Ok(()),
        _ => Err(AppServerError::ClearNotConfirmed),
    }
}

/// A JSON number for `n`: its decimal digits, after a minus sign when negative.
pub open spec fn integer_text(n: i64) -> Seq<char> {
    if n < 0 {
        seq!['-'] + decimal_text((-n) as nat)
    } else {
        decimal_text(n as nat)
    }
}

fn push_decimal(target: &mut String, n: u64)
    ensures
        final(target)@ == old(target)@ + decimal_text(n as nat),
{
    let digits = decimal_chars(n);
    push_chars(target, digits.as_slice());
}

fn push_integer(target: &mut String, n: i64)
    ensures
        final(target)@ == old(target)@ + integer_text(n),
{
    if n < 0 {
        string_push(target, '-');
        let magnitude: u64 = (0i128 - n as i128) as u64;
        push_decimal(target, magnitude);
        proof {
            assert(target@ == old(target)@ + integer_text(n));
        }
    } else {
        push_decimal(target, n as u64);
    }
}

fn append_text(target: &mut String, text: &str)
    ensures
        final(target)@ == old(target)@ + text@,
{
    let chars = chars_of(text);
    push_chars(target, chars.as_slice());
}

fn append_quoted(target: &mut String, text: &str)
    ensures
        final(target)@ == old(target)@ + json_string_literal(text@),
{
    let quoted = match json_quote(text) {
        Ok(quoted) => quoted,
        Err(_) => String::new(),
    };
    append_text(target, quoted.as_str());
}

/// The name the app-server gives a Goal status.
pub open spec fn status_name(status: NativeGoalStatus) -> Seq<char> {
    match status {
        NativeGoalStatus::Active => "active"@,
        NativeGoalStatus::Paused => "paused"@,
        NativeGoalStatus::Blocked => "blocked"@,
        NativeGoalStatus::UsageLimited => "usageLimited"@,
        NativeGoalStatus::BudgetLimited => "budgetLimited"@,
        NativeGoalStatus::Complete => "complete"@,
    }
}

fn status_text(status: NativeGoalStatus) -> (result: &'static str)
    ensures
        result@ == status_name(status),
{
    match status {
        NativeGoalStatus::Active => "active",
        NativeGoalStatus::Paused => "paused",
        NativeGoalStatus::Blocked => "blocked",
        NativeGoalStatus::UsageLimited => "usageLimited",
        NativeGoalStatus::BudgetLimited => "budgetLimited",
        NativeGoalStatus::Complete => "complete",
    }
}

/// A request line without its newline: the request id as a decimal string, the method,
/// and the parameters, with members in the order `serde_json` writes them.
pub open spec fn request_text(request_id: u64, method: Seq<char>, params: Seq<char>) -> Seq<char> {
    "{\"id\":\""@ + decimal_text(request_id as nat) + "\",\"method\":"@ + json_string_literal(method) + ",\"params\":"@
        + params + "}"@
}

/// The parameters naming one thread.
pub open spec fn thread_params(thread_id: Seq<char>) -> Seq<char> {
    "{\"threadId\":"@ + json_string_literal(thread_id) + "}"@
}

/// The parameters of `thread/goal/set`.
pub open spec fn set_params(thread_id: Seq<char>, goal: GoalView) -> Seq<char> {
    "{\"objective\":"@ + json_string_literal(goal.objective) + ",\"status\":\""@ + status_name(goal.status)
        + "\",\"threadId\":"@ + json_string_literal(thread_id) + ",\"tokenBudget\":"@ + match goal.token_budget {
        Some(budget) => integer_text(budget),
        None => "null"@,
    } + "}"@
}

fn push_request(target: &mut String, request_id: u64, method: &str)
    ensures
        final(target)@ == old(target)@ + "{\"id\":\""@ + decimal_text(request_id as nat) + "\",\"method\":"@
            + json_string_literal(method@) + ",\"params\":"@,
{
    append_text(target, "{\"id\":\"");
    push_decimal(target, request_id);
    append_text(target, "\",\"method\":");
    append_quoted(target, method);
    append_text(target, ",\"params\":");
}

/// The request line, without its newline, that asks for the Goal of a thread
/// (`thread/goal/get`) or clears it (`thread/goal/clear`).
pub fn thread_request(request_id: u64, method: &str, thread_id: &str) -> (result: String)
    ensures
        result@ == request_text(request_id, method@, thread_params(thread_id@)),
{
    let mut line = String::new();
    push_request(&mut line, request_id, method);
    append_text(&mut line, "{\"threadId\":");
    append_quoted(&mut line, thread_id);
    append_text(&mut line, "}}");
    proof {
        reveal_strlit("}}");
        reveal_strlit("}");
        assert("}}"@ =~= "}"@ + "}"@);
        assert(line@ =~= request_text(request_id, method@, thread_params(thread_id@)));
    }
    line
}

/// The request line, without its newline, that sets the Goal of a thread
/// (`thread/goal/set`).
pub fn set_goal_request(request_id: u64, thread_id: &str, goal: &NativeGoalIntent) -> (result: String)
    ensures
        result@ == request_text(request_id, "thread/goal/set"@, set_params(thread_id@, goal_view(*goal))),
{
    let mut line = String::new();
    push_request(&mut line, request_id, "thread/goal/set");
    let ghost head = line@;
    append_text(&mut line, "{\"objective\":");
    append_quoted(&mut line, goal.objective.as_str());
    append_text(&mut line, ",\"status\":\"");
    append_text(&mut line, status_text(goal.status));
    append_text(&mut line, "\",\"threadId\":");
    append_quoted(&mut line, thread_id);
    append_text(&mut line, ",\"tokenBudget\":");
    match goal.token_budget {
        Some(budget) => push_integer(&mut line, budget),
        None => append_text(&mut line, "null"),
    }
    append_text(&mut line, "}}");
    proof {
        reveal_strlit("}}");
        reveal_strlit("}");
        assert("}}"@ =~= "}"@ + "}"@);
        assert(line@ =~= head + set_params(thread_id@, goal_view(*goal)) + "}"@);
        assert(line@ =~= request_text(request_id, "thread/goal/set"@, set_params(thread_id@, goal_view(*goal))));
    }
    line
}

} // verus!
