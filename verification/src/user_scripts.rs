//! The Codex++ user script configuration: turning the administrator's bootstrap script on,
//! and off again.

use vstd::prelude::*;

use crate::catalog_json::has_bool;
use crate::host::CODEX_PLUS_BOOTSTRAP_KEY;
use crate::json::{
    json_bool_value, json_clone, json_empty_object, json_get, json_insert, json_is_object, json_member, json_object,
    json_remove,
};

verus! {

/// Why the user script configuration cannot be edited.
#[derive(Debug, Clone, Copy, PartialEq, Eq, Structural)]
pub enum UserScriptsError {
    /// The configuration is not a JSON object.
    RootNotObject,
    /// Its `scripts` member is not a JSON object.
    ScriptsNotObject,
}

/// The configuration's `scripts` member is there and not an object.
pub open spec fn scripts_not_object(root: serde_json::Value) -> bool {
    json_member(root, "scripts"@) matches Some(scripts) && !json_object(scripts)
}

/// The configuration's `scripts` table lists the bootstrap script.
pub open spec fn bootstrap_listed(root: serde_json::Value) -> bool {
    json_member(root, "scripts"@) matches Some(scripts) && json_object(scripts) && json_member(
        scripts,
        CODEX_PLUS_BOOTSTRAP_KEY@,
    ) is Some
}

/// The script table the configuration will hold: its `scripts` member, or an empty one.
pub open spec fn scripts_before(root: serde_json::Value, scripts: serde_json::Value) -> bool {
    match json_member(root, "scripts"@) {
        Some(member) => scripts == member,
        None => json_object(scripts) && forall|key: Seq<char>| #[trigger] json_member(scripts, key) is None,
    }
}

/// Turns the bootstrap script on: the configuration is enabled, and its `scripts` table
/// (made when missing) enables the bootstrap script, their other members kept. Refused for
/// a configuration or a `scripts` member that is not an object.
pub fn enable_codex_plus_scripts(root: &mut serde_json::Value) -> (result: Result<(), UserScriptsError>)
    ensures
        result is Err ==> *final(root) == *old(root),
        (result == Err::<(), UserScriptsError>(UserScriptsError::RootNotObject)) <==> !json_object(*old(root)),
        (result == Err::<(), UserScriptsError>(UserScriptsError::ScriptsNotObject)) <==> (json_object(*old(root))
            && scripts_not_object(*old(root))),
        result is Ok ==> {
            &&& json_object(*final(root))
            &&& has_bool(*final(root), "enabled"@, true)
            &&& forall|key: Seq<char>|
                key != "enabled"@ && key != "scripts"@ ==> #[trigger] json_member(*final(root), key) == json_member(
                    *old(root),
                    key,
                )
            &&& json_member(*final(root), "scripts"@) matches Some(after) && json_object(after) && has_bool(
                after,
                CODEX_PLUS_BOOTSTRAP_KEY@,
                true,
            ) && exists|before: serde_json::Value|
                #[trigger] scripts_before(*old(root), before) && forall|key: Seq<char>|
                    key != CODEX_PLUS_BOOTSTRAP_KEY@ ==> #[trigger] json_member(after, key) == json_member(before, key)
        },
{
    if !json_is_object(root) {
        return Err(UserScriptsError::RootNotObject);
    }
    let mut scripts = match json_get(root, "scripts") {
        Some(member) => {
            if !json_is_object(member) {
                return Err(UserScriptsError::ScriptsNotObject);
            }
            json_clone(member)
        },
        None => json_empty_object(),
    };
    let ghost before = scripts;
    let stored = json_insert(&mut scripts, CODEX_PLUS_BOOTSTRAP_KEY, json_bool_value(true));
    let ghost start = *root;
    let enabled = json_insert(root, "enabled", json_bool_value(true));
    let ghost with_enabled = *root;
    let placed = json_insert(root, "scripts", scripts);
    proof {
        reveal_strlit("enabled");
        reveal_strlit("scripts");
        assert("enabled"@[0] != "scripts"@[0]);
        assert(scripts_before(start, before));
    }
    Ok(())
}

/// Turns the bootstrap script off: removes it from the configuration's `scripts` table and
/// tells whether it was there; a `scripts` member that is missing or not an object is left
/// alone. Refused for a configuration that is not an object.
pub fn disable_codex_plus_script(root: &mut serde_json::Value) -> (result: Result<bool, UserScriptsError>)
    ensures
        (result == Err::<bool, UserScriptsError>(UserScriptsError::RootNotObject)) <==> !json_object(*old(root)),
        result is Err ==> *final(root) == *old(root),
        result == Ok::<bool, UserScriptsError>(false) ==> *final(root) == *old(root),
        (result == Ok::<bool, UserScriptsError>(true)) <==> (json_object(*old(root)) && bootstrap_listed(*old(root))),
        result == Ok::<bool, UserScriptsError>(true) ==> {
            &&& json_object(*final(root))
            &&& forall|key: Seq<char>|
                key != "scripts"@ ==> #[trigger] json_member(*final(root), key) == json_member(*old(root), key)
            &&& json_member(*final(root), "scripts"@) matches Some(after) && json_object(after) && json_member(
                after,
                CODEX_PLUS_BOOTSTRAP_KEY@,
            ) is None && forall|key: Seq<char>|
                key != CODEX_PLUS_BOOTSTRAP_KEY@ ==> #[trigger] json_member(after, key) == json_member(
                    json_member(*old(root), "scripts"@)->0,
                    key,
                )
        },
{
    if !json_is_object(root) {
        return Err(UserScriptsError::RootNotObject);
    }
    let mut scripts = match json_get(root, "scripts") {
        Some(member) => json_clone(member),
        None => return Ok(false),
    };
    if !json_remove(&mut scripts, CODEX_PLUS_BOOTSTRAP_KEY) {
        return Ok(false);
    }
    let placed = json_insert(root, "scripts", scripts);
    Ok(true)
}

} // verus!
