//! The hooks configuration of a CODEX_HOME with the continuity hook installed: every
//! `UserPromptSubmit` group that runs a continuity hook is replaced by one group that runs
//! the given command. Reading and writing `hooks.json` are left to the caller.

use vstd::prelude::*;
use vstd::utf8::encode_utf8;

use crate::codec::{json_quote, json_string_literal};
use crate::json::{
    encode_json_pretty, json_array, json_array_items, json_array_value, json_as_text, json_clone, json_get, json_insert,
    json_is_object, json_items, json_member, json_object, json_parse, json_pretty_encoding, json_text,
    json_with_member, parse_json,
};
use crate::session_hook::{
    contains_text, is_continuity_hook_command, is_hook_command, validate_hook_command, HookError,
    CONTINUITY_HOOK_MARKER, MAX_HOOK_CONFIG_BYTES,
};
use crate::strings::push_chars;
use crate::text::chars_of;

verus! {

/// The configuration that stands for a missing or empty `hooks.json`.
pub const EMPTY_HOOKS_CONFIG: &'static str = "{\"hooks\":{}}";

/// An empty JSON object.
pub const EMPTY_OBJECT: &'static str = "{}";

/// A hook handler runs the continuity hook when its `command` is a string that carries the
/// continuity marker.
pub open spec fn is_continuity_handler(handler: serde_json::Value) -> bool {
    match json_member(handler, "command"@) {
        Some(command) => match json_text(command) {
            Some(text) => contains_text(text, CONTINUITY_HOOK_MARKER@),
            None => false,
        },
        None => false,
    }
}

/// Some handler of `handlers` runs the continuity hook.
pub open spec fn has_continuity_handler(handlers: Seq<serde_json::Value>) -> bool {
    exists|i: int| 0 <= i < handlers.len() && is_continuity_handler(#[trigger] handlers[i])
}

/// A hook group runs the continuity hook when its `hooks` member is an array holding a
/// continuity handler.
pub open spec fn runs_continuity_hook(group: serde_json::Value) -> bool {
    match json_member(group, "hooks"@) {
        Some(hooks) => match json_items(hooks) {
            Some(handlers) => has_continuity_handler(handlers),
            None => false,
        },
        None => false,
    }
}

/// The groups that do not run the continuity hook, in order.
pub open spec fn other_groups(groups: Seq<serde_json::Value>) -> Seq<serde_json::Value>
    decreases groups.len(),
{
    if groups.len() == 0 {
        Seq::empty()
    } else if runs_continuity_hook(groups.last()) {
        other_groups(groups.drop_last())
    } else {
        other_groups(groups.drop_last()).push(groups.last())
    }
}

/// The group that runs `command` as the continuity hook: no matcher, one command handler
/// with a five second timeout.
pub open spec fn continuity_group_text(command: Seq<char>) -> Seq<char> {
    "{\"hooks\":[{\"command\":"@ + json_string_literal(command) + ",\"timeout\":5,\"type\":\"command\"}],\"matcher\":\"\"}"@
}

/// `hooks.json` after installing the continuity hook `command` over `existing` (empty for
/// no file): the command must be a hook command; the configuration must be a JSON object
/// whose `hooks` member, when present, is an object whose `UserPromptSubmit` member, when
/// present, is an array. The groups that run a continuity hook leave it and the command's
/// group is appended; the result is written pretty, ends in a newline, and must fit
/// `MAX_HOOK_CONFIG_BYTES`.
pub open spec fn merged_hooks(existing: Seq<u8>, command: Seq<char>) -> Result<Seq<u8>, HookError> {
    if !is_hook_command(command) {
        Err(HookError::InvalidCommand)
    } else {
        let parsed = if existing.len() == 0 {
            json_parse(encode_utf8(EMPTY_HOOKS_CONFIG@))
        } else {
            json_parse(existing)
        };
        match parsed {
            None => Err(HookError::InvalidConfig),
            Some(root) => if !json_object(root) {
                Err(HookError::RootNotObject)
            } else {
                let hooks = match json_member(root, "hooks"@) {
                    Some(hooks) => Some(hooks),
                    None => json_parse(encode_utf8(EMPTY_OBJECT@)),
                };
                match hooks {
                    None => Err(HookError::InvalidConfig),
                    Some(hooks) => if !json_object(hooks) {
                        Err(HookError::HooksNotObject)
                    } else {
                        let groups = match json_member(hooks, "UserPromptSubmit"@) {
                            Some(groups) => json_items(groups),
                            None => Some(Seq::empty()),
                        };
                        match (groups, json_parse(encode_utf8(continuity_group_text(command)))) {
                            (None, _) => Err(HookError::PromptHooksNotArray),
                            (Some(_), None) => Err(HookError::InvalidConfig),
                            (Some(groups), Some(group)) => {
                                let prompt = json_array_value(other_groups(groups).push(group));
                                match json_with_member(hooks, "UserPromptSubmit"@, prompt) {
                                    None => Err(HookError::HooksNotObject),
                                    Some(hooks) => match json_with_member(root, "hooks"@, hooks) {
                                        None => Err(HookError::RootNotObject),
                                        Some(root) => match json_pretty_encoding(root) {
                                            None => Err(HookError::InvalidConfig),
                                            Some(bytes) => if bytes.len() + 1 > MAX_HOOK_CONFIG_BYTES {
                                                Err(HookError::ConfigTooLarge)
                                            } else {
                                                Ok(bytes.push(10u8))
                                            },
                                        },
                                    },
                                }
                            },
                        }
                    },
                }
            },
        }
    }
}

fn is_continuity_group(group: &serde_json::Value) -> (result: bool)
    ensures
        result == runs_continuity_hook(*group),
{
    let handlers = match json_get(group, "hooks") {
        Some(hooks) => json_array_items(hooks),
        None => None,
    };
    let handlers = match handlers {
        Some(handlers) => handlers,
        None => return false,
    };
    for i in 0..handlers.len()
        invariant
            json_member(*group, "hooks"@) matches Some(hooks) && json_items(hooks) == Some(handlers@),
            forall|j: int| 0 <= j < i ==> !is_continuity_handler(#[trigger] handlers@[j]),
    {
        let command = match json_get(&handlers[i], "command") {
            Some(command) => json_as_text(command),
            None => None,
        };
        if let Some(command) = command {
            if is_continuity_hook_command(command.as_str()) {
                proof {
                    let hooks = json_member(*group, "hooks"@).unwrap();
                    assert(json_items(hooks) == Some(handlers@));
                    assert(is_continuity_handler(handlers@[i as int]));
                    assert(has_continuity_handler(handlers@));
                }
                return true;
            }
        }
    }
    false
}

fn continuity_group(command: &str) -> (result: String)
    ensures
        result@ == continuity_group_text(command@),
{
    let quoted = match json_quote(command) {
        Ok(quoted) => quoted,
        Err(_) => String::new(),
    };
    let mut text = String::new();
    let head = chars_of("{\"hooks\":[{\"command\":");
    push_chars(&mut text, head.as_slice());
    let body = chars_of(quoted.as_str());
    push_chars(&mut text, body.as_slice());
    let tail = chars_of(",\"timeout\":5,\"type\":\"command\"}],\"matcher\":\"\"}");
    push_chars(&mut text, tail.as_slice());
    text
}

/// Installs the continuity hook `command` into the hooks configuration `existing`, as
/// `merged_hooks` says.
pub fn merge_continuity_hook(existing: &[u8], command: &str) -> (result: Result<Vec<u8>, HookError>)
    ensures
        match merged_hooks(existing@, command@) {
            Ok(bytes) => result matches Ok(rendered) && rendered@ == bytes,
            Err(e) => result == Err::<Vec<u8>, HookError>(e),
        },
{
    if validate_hook_command(command).is_err() {
        return Err(HookError::InvalidCommand);
    }
    let parsed = if existing.len() == 0 {
        parse_json(EMPTY_HOOKS_CONFIG.as_bytes())
    } else {
        parse_json(existing)
    };
    let mut root = match parsed {
        Ok(root) => root,
        Err(_) => return Err(HookError::InvalidConfig),
    };
    if !json_is_object(&root) {
        return Err(HookError::RootNotObject);
    }
    let hooks = match json_get(&root, "hooks") {
        Some(hooks) => Ok(json_clone(hooks)),
        None => parse_json(EMPTY_OBJECT.as_bytes()),
    };
    let mut hooks = match hooks {
        Ok(hooks) => hooks,
        Err(_) => return Err(HookError::InvalidConfig),
    };
    if !json_is_object(&hooks) {
        return Err(HookError::HooksNotObject);
    }
    let groups = match json_get(&hooks, "UserPromptSubmit") {
        Some(groups) => json_array_items(groups),
        None => Some(Vec::new()),
    };
    let groups = match groups {
        Some(groups) => groups,
        None => return Err(HookError::PromptHooksNotArray),
    };
    let text = continuity_group(command);
    let group = match parse_json(text.as_str().as_bytes()) {
        Ok(group) => group,
        Err(_) => return Err(HookError::InvalidConfig),
    };
    let mut kept: Vec<serde_json::Value> = Vec::new();
    for i in 0..groups.len()
        invariant
            kept@ == other_groups(groups@.take(i as int)),
    {
        proof {
            assert(groups@.take(i + 1).drop_last() =~= groups@.take(i as int));
            assert(groups@.take(i + 1).last() == groups@[i as int]);
        }
        if !is_continuity_group(&groups[i]) {
            kept.push(json_clone(&groups[i]));
        }
    }
    proof {
        assert(groups@.take(groups@.len() as int) =~= groups@);
    }
    kept.push(group);
    let prompt = json_array(kept);
    if !json_insert(&mut hooks, "UserPromptSubmit", prompt) {
        return Err(HookError::HooksNotObject);
    }
    if !json_insert(&mut root, "hooks", hooks) {
        return Err(HookError::RootNotObject);
    }
    let mut rendered = match encode_json_pretty(&root) {
        Ok(rendered) => rendered,
        Err(_) => return Err(HookError::InvalidConfig),
    };
    if rendered.len() >= MAX_HOOK_CONFIG_BYTES {
        return Err(HookError::ConfigTooLarge);
    }
    rendered.push(10u8);
    Ok(rendered)
}

} // verus!
