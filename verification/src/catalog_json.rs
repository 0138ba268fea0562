//! The JSON of the native model catalog: the entry a Grok model adds over a copy of the
//! official default entry, the catalog with those entries appended, and the filling in of a
//! member that older official entries lack.

use vstd::prelude::*;

use crate::bootstrap::{InjectedModelDescriptor, InjectedReasoningEffort};
use crate::catalog_entry::{
    effort_views, grok_catalog_entries, grok_entry_for, slugs_before, text_views, CatalogError, GrokCatalogEntry,
    GROK_AVAILABILITY_MESSAGE,
};
use crate::json::{
    json_array, json_array_items, json_as_text, json_bool, json_bool_value, json_clone, json_empty_object, json_get,
    json_insert, json_int, json_int_value, json_items, json_member, json_null, json_null_value, json_object,
    json_string_value, json_text, json_u64, json_u64_value,
};
use crate::compatibility::{ascii_lower, eq_ignore_ascii_case};
use crate::text::{chars_of, is_blank};

verus! {

/// `value` holds the text `text` under `key`.
pub open spec fn has_text(value: serde_json::Value, key: Seq<char>, text: Seq<char>) -> bool {
    json_member(value, key) matches Some(member) && json_text(member) == Some(text)
}

/// `value` holds the boolean `b` under `key`.
pub open spec fn has_bool(value: serde_json::Value, key: Seq<char>, b: bool) -> bool {
    json_member(value, key) matches Some(member) && json_bool(member) == Some(b)
}

/// `value` holds the integer `n` under `key`.
pub open spec fn has_int(value: serde_json::Value, key: Seq<char>, n: i64) -> bool {
    json_member(value, key) matches Some(member) && json_int(member) == Some(n)
}

/// `value` holds the unsigned integer `n` under `key`.
pub open spec fn has_u64(value: serde_json::Value, key: Seq<char>, n: u64) -> bool {
    json_member(value, key) matches Some(member) && json_u64(member) == Some(n)
}

/// `value` holds `null` under `key`.
pub open spec fn has_null(value: serde_json::Value, key: Seq<char>) -> bool {
    json_member(value, key) matches Some(member) && json_null(member)
}

/// `value` holds an empty list under `key`.
pub open spec fn has_empty_list(value: serde_json::Value, key: Seq<char>) -> bool {
    json_member(value, key) matches Some(member) && json_items(member) == Some(Seq::<serde_json::Value>::empty())
}

/// `value` holds under `key` a list of the texts, in order.
pub open spec fn has_texts(value: serde_json::Value, key: Seq<char>, texts: Seq<Seq<char>>) -> bool {
    json_member(value, key) matches Some(member) && json_items(member) matches Some(items) && items.len() == texts.len()
        && forall|i: int| 0 <= i < items.len() ==> json_text(#[trigger] items[i]) == Some(texts[i])
}

/// `value` holds under `key` a list of objects, in order, each with the `effort` and the
/// `description` of a reasoning level.
pub open spec fn has_levels(value: serde_json::Value, key: Seq<char>, levels: Seq<(Seq<char>, Seq<char>)>) -> bool {
    json_member(value, key) matches Some(member) && json_items(member) matches Some(items) && items.len()
        == levels.len() && forall|i: int|
        0 <= i < items.len() ==> has_text(#[trigger] items[i], "effort"@, levels[i].0) && has_text(
            items[i],
            "description"@,
            levels[i].1,
        )
}

/// `value` holds under `key` an object whose `message` is `message`.
pub open spec fn has_message(value: serde_json::Value, key: Seq<char>, message: Seq<char>) -> bool {
    json_member(value, key) matches Some(member) && has_text(member, "message"@, message)
}

/// `value` holds under `key` an object with the `mode` `bytes` and the `limit` `limit`.
pub open spec fn has_byte_policy(value: serde_json::Value, key: Seq<char>, limit: u64) -> bool {
    json_member(value, key) matches Some(member) && has_text(member, "mode"@, "bytes"@) && has_u64(member, "limit"@, limit)
}

/// A member that a Grok entry sets over the official default entry.
pub open spec fn is_entry_key(key: Seq<char>) -> bool {
    key == "slug"@
        || key == "display_name"@
        || key == "description"@
        || key == "default_reasoning_level"@
        || key == "shell_type"@
        || key == "visibility"@
        || key == "base_instructions"@
        || key == "default_reasoning_summary"@
        || key == "web_search_tool_type"@
        || key == "supported_in_api"@
        || key == "include_skills_usage_instructions"@
        || key == "supports_reasoning_summaries"@
        || key == "support_verbosity"@
        || key == "supports_parallel_tool_calls"@
        || key == "supports_image_detail_original"@
        || key == "supports_search_tool"@
        || key == "use_responses_lite"@
        || key == "context_window"@
        || key == "max_context_window"@
        || key == "effective_context_window_percent"@
        || key == "default_service_tier"@
        || key == "upgrade"@
        || key == "model_messages"@
        || key == "default_verbosity"@
        || key == "apply_patch_tool_type"@
        || key == "auto_compact_token_limit"@
        || key == "comp_hash"@
        || key == "auto_review_model_override"@
        || key == "tool_mode"@
        || key == "multi_agent_version"@
        || key == "additional_speed_tiers"@
        || key == "service_tiers"@
        || key == "experimental_supported_tools"@
        || key == "priority"@
        || key == "availability_nux"@
        || key == "truncation_policy"@
        || key == "supported_reasoning_levels"@
        || key == "input_modalities"@
}

/// `value` is the JSON of `entry` over `template`: each member of the entry set as the
/// catalog writes it, and every other member of the template kept.
pub open spec fn entry_value_of(value: serde_json::Value, template: serde_json::Value, entry: GrokCatalogEntry) -> bool {
    &&& json_object(value)
    &&& has_text(value, "slug"@, entry.slug@)
    &&& has_text(value, "display_name"@, entry.display_name@)
    &&& has_text(value, "description"@, entry.description@)
    &&& has_text(value, "default_reasoning_level"@, entry.default_reasoning_level@)
    &&& has_text(value, "shell_type"@, entry.shell_type@)
    &&& has_text(value, "visibility"@, entry.visibility@)
    &&& has_text(value, "base_instructions"@, entry.base_instructions@)
    &&& has_text(value, "default_reasoning_summary"@, entry.default_reasoning_summary@)
    &&& has_text(value, "web_search_tool_type"@, entry.web_search_tool_type@)
    &&& has_bool(value, "supported_in_api"@, entry.supported_in_api)
    &&& has_bool(value, "include_skills_usage_instructions"@, entry.include_skills_usage_instructions)
    &&& has_bool(value, "supports_reasoning_summaries"@, entry.supports_reasoning_summaries)
    &&& has_bool(value, "support_verbosity"@, entry.support_verbosity)
    &&& has_bool(value, "supports_parallel_tool_calls"@, entry.supports_parallel_tool_calls)
    &&& has_bool(value, "supports_image_detail_original"@, entry.supports_image_detail_original)
    &&& has_bool(value, "supports_search_tool"@, entry.supports_search_tool)
    &&& has_bool(value, "use_responses_lite"@, entry.use_responses_lite)
    &&& has_u64(value, "context_window"@, entry.context_window)
    &&& has_u64(value, "max_context_window"@, entry.max_context_window)
    &&& has_u64(value, "effective_context_window_percent"@, entry.effective_context_window_percent)
    &&& has_int(value, "priority"@, entry.priority)
    &&& has_null(value, "default_service_tier"@)
    &&& has_null(value, "upgrade"@)
    &&& has_null(value, "model_messages"@)
    &&& has_null(value, "default_verbosity"@)
    &&& has_null(value, "apply_patch_tool_type"@)
    &&& has_null(value, "auto_compact_token_limit"@)
    &&& has_null(value, "comp_hash"@)
    &&& has_null(value, "auto_review_model_override"@)
    &&& has_null(value, "tool_mode"@)
    &&& has_null(value, "multi_agent_version"@)
    &&& has_empty_list(value, "additional_speed_tiers"@)
    &&& has_empty_list(value, "service_tiers"@)
    &&& has_empty_list(value, "experimental_supported_tools"@)
    &&& has_message(value, "availability_nux"@, entry.availability_message@)
    &&& has_byte_policy(value, "truncation_policy"@, entry.truncation_limit_bytes)
    &&& has_levels(value, "supported_reasoning_levels"@, effort_views(entry.supported_reasoning_levels@))
    &&& has_texts(value, "input_modalities"@, text_views(entry.input_modalities@))
    &&& forall|key: Seq<char>| !is_entry_key(key) ==> #[trigger] json_member(value, key) == json_member(template, key)
}

fn put(value: &mut serde_json::Value, key: &str, member: serde_json::Value)
    requires
        json_object(*old(value)),
    ensures
        json_object(*final(value)),
        json_member(*final(value), key@) == Some(member),
        forall|other: Seq<char>| other != key@ ==> #[trigger] json_member(*final(value), other) == json_member(*old(value), other),
{
    let stored = json_insert(value, key, member);
}

fn text_list(texts: &Vec<String>) -> (result: serde_json::Value)
    ensures
        json_items(result) matches Some(items) && items.len() == texts@.len() && forall|i: int|
            0 <= i < items.len() ==> json_text(#[trigger] items[i]) == Some(texts@[i]@),
{
    let mut items: Vec<serde_json::Value> = Vec::new();
    for i in 0..texts.len()
        invariant
            items@.len() == i,
            forall|j: int| 0 <= j < i ==> json_text(#[trigger] items@[j]) == Some(texts@[j]@),
    {
        items.push(json_string_value(texts[i].as_str()));
    }
    json_array(items)
}

fn level_list(levels: &Vec<InjectedReasoningEffort>) -> (result: serde_json::Value)
    ensures
        json_items(result) matches Some(items) && items.len() == levels@.len() && forall|i: int|
            0 <= i < items.len() ==> has_text(#[trigger] items[i], "effort"@, levels@[i].reasoning_effort@) && has_text(
                items[i],
                "description"@,
                levels@[i].description@,
            ),
{
    let mut items: Vec<serde_json::Value> = Vec::new();
    for i in 0..levels.len()
        invariant
            items@.len() == i,
            forall|j: int|
                0 <= j < i ==> has_text(#[trigger] items@[j], "effort"@, levels@[j].reasoning_effort@) && has_text(
                    items@[j],
                    "description"@,
                    levels@[j].description@,
                ),
    {
        let mut level = json_empty_object();
        let effort = json_string_value(levels[i].reasoning_effort.as_str());
        let description = json_string_value(levels[i].description.as_str());
        put(&mut level, "effort", effort);
        let ghost with_effort = level;
        put(&mut level, "description", description);
        proof {
            reveal_strlit("effort");
            reveal_strlit("description");
            assert("effort"@ != "description"@) by {
                assert("effort"@.len() != "description"@.len());
            }
            assert(json_member(level, "effort"@) == json_member(with_effort, "effort"@));
            assert(has_text(level, "effort"@, levels@[i as int].reasoning_effort@));
            assert(has_text(level, "description"@, levels@[i as int].description@));
        }
        let ghost before = items@;
        items.push(level);
        proof {
            assert forall|j: int| 0 <= j < i + 1 implies has_text(#[trigger] items@[j], "effort"@, levels@[j].reasoning_effort@)
                && has_text(items@[j], "description"@, levels@[j].description@) by {
                if j < i {
                    assert(items@[j] == before[j]);
                }
            }
        }
    }
    json_array(items)
}

/// The JSON of `entry` over a copy of the official default entry `template`: refused when
/// the template is not an object.
pub fn catalog_entry_value(template: &serde_json::Value, entry: &GrokCatalogEntry) -> (result: Result<serde_json::Value, CatalogError>)
    ensures
        result is Ok <==> json_object(*template),
        result is Err ==> result == Err::<serde_json::Value, CatalogError>(CatalogError::TemplateNotObject),
        result matches Ok(value) ==> entry_value_of(value, *template, *entry),
{
    if !crate::json::json_is_object(template) {
        return Err(CatalogError::TemplateNotObject);
    }
    let mut model = json_clone(template);
    let ghost start = model;
    put(&mut model, "slug", json_string_value(entry.slug.as_str()));
    put(&mut model, "display_name", json_string_value(entry.display_name.as_str()));
    put(&mut model, "description", json_string_value(entry.description.as_str()));
    put(&mut model, "default_reasoning_level", json_string_value(entry.default_reasoning_level.as_str()));
    put(&mut model, "shell_type", json_string_value(entry.shell_type.as_str()));
    put(&mut model, "visibility", json_string_value(entry.visibility.as_str()));
    put(&mut model, "base_instructions", json_string_value(entry.base_instructions.as_str()));
    put(&mut model, "default_reasoning_summary", json_string_value(entry.default_reasoning_summary.as_str()));
    put(&mut model, "web_search_tool_type", json_string_value(entry.web_search_tool_type.as_str()));
    put(&mut model, "supported_in_api", json_bool_value(entry.supported_in_api));
    put(&mut model, "include_skills_usage_instructions", json_bool_value(entry.include_skills_usage_instructions));
    put(&mut model, "supports_reasoning_summaries", json_bool_value(entry.supports_reasoning_summaries));
    put(&mut model, "support_verbosity", json_bool_value(entry.support_verbosity));
    put(&mut model, "supports_parallel_tool_calls", json_bool_value(entry.supports_parallel_tool_calls));
    put(&mut model, "supports_image_detail_original", json_bool_value(entry.supports_image_detail_original));
    put(&mut model, "supports_search_tool", json_bool_value(entry.supports_search_tool));
    put(&mut model, "use_responses_lite", json_bool_value(entry.use_responses_lite));
    put(&mut model, "context_window", json_u64_value(entry.context_window));
    put(&mut model, "max_context_window", json_u64_value(entry.max_context_window));
    put(&mut model, "effective_context_window_percent", json_u64_value(entry.effective_context_window_percent));
    put(&mut model, "priority", json_int_value(entry.priority));
    put(&mut model, "default_service_tier", json_null_value());
    put(&mut model, "upgrade", json_null_value());
    put(&mut model, "model_messages", json_null_value());
    put(&mut model, "default_verbosity", json_null_value());
    put(&mut model, "apply_patch_tool_type", json_null_value());
    put(&mut model, "auto_compact_token_limit", json_null_value());
    put(&mut model, "comp_hash", json_null_value());
    put(&mut model, "auto_review_model_override", json_null_value());
    put(&mut model, "tool_mode", json_null_value());
    put(&mut model, "multi_agent_version", json_null_value());
    put(&mut model, "additional_speed_tiers", json_array(Vec::new()));
    put(&mut model, "service_tiers", json_array(Vec::new()));
    put(&mut model, "experimental_supported_tools", json_array(Vec::new()));
    let mut nux = json_empty_object();
    put(&mut nux, "message", json_string_value(entry.availability_message.as_str()));
    put(&mut model, "availability_nux", nux);
    let mut truncation = json_empty_object();
    put(&mut truncation, "mode", json_string_value("bytes"));
    put(&mut truncation, "limit", json_u64_value(entry.truncation_limit_bytes));
    proof {
        reveal_strlit("mode");
        reveal_strlit("limit");
        assert("mode"@.len() != "limit"@.len());
    }
    put(&mut model, "truncation_policy", truncation);
    put(&mut model, "supported_reasoning_levels", level_list(&entry.supported_reasoning_levels));
    put(&mut model, "input_modalities", text_list(&entry.input_modalities));
    proof {
        reveal_strlit("slug");
        reveal_strlit("display_name");
        reveal_strlit("description");
        reveal_strlit("default_reasoning_level");
        reveal_strlit("shell_type");
        reveal_strlit("visibility");
        reveal_strlit("base_instructions");
        reveal_strlit("default_reasoning_summary");
        reveal_strlit("web_search_tool_type");
        reveal_strlit("supported_in_api");
        reveal_strlit("include_skills_usage_instructions");
        reveal_strlit("supports_reasoning_summaries");
        reveal_strlit("support_verbosity");
        reveal_strlit("supports_parallel_tool_calls");
        reveal_strlit("supports_image_detail_original");
        reveal_strlit("supports_search_tool");
        reveal_strlit("use_responses_lite");
        reveal_strlit("context_window");
        reveal_strlit("max_context_window");
        reveal_strlit("effective_context_window_percent");
        reveal_strlit("default_service_tier");
        reveal_strlit("upgrade");
        reveal_strlit("model_messages");
        reveal_strlit("default_verbosity");
        reveal_strlit("apply_patch_tool_type");
        reveal_strlit("auto_compact_token_limit");
        reveal_strlit("comp_hash");
        reveal_strlit("auto_review_model_override");
        reveal_strlit("tool_mode");
        reveal_strlit("multi_agent_version");
        reveal_strlit("additional_speed_tiers");
        reveal_strlit("service_tiers");
        reveal_strlit("experimental_supported_tools");
        reveal_strlit("priority");
        reveal_strlit("availability_nux");
        reveal_strlit("truncation_policy");
        reveal_strlit("supported_reasoning_levels");
        reveal_strlit("input_modalities");
        reveal_strlit("message");
        reveal_strlit("mode");
        reveal_strlit("limit");
        reveal_strlit("bytes");
        assert("slug"@.len() == 4);
        assert("display_name"@.len() == 12);
        assert("description"@.len() == 11);
        assert("default_reasoning_level"@.len() == 23);
        assert("shell_type"@.len() == 10);
        assert("visibility"@.len() == 10);
        assert("base_instructions"@.len() == 17);
        assert("default_reasoning_summary"@.len() == 25);
        assert("web_search_tool_type"@.len() == 20);
        assert("supported_in_api"@.len() == 16);
        assert("include_skills_usage_instructions"@.len() == 33);
        assert("supports_reasoning_summaries"@.len() == 28);
        assert("support_verbosity"@.len() == 17);
        assert("supports_parallel_tool_calls"@.len() == 28);
        assert("supports_image_detail_original"@.len() == 30);
        assert("supports_search_tool"@.len() == 20);
        assert("use_responses_lite"@.len() == 18);
        assert("context_window"@.len() == 14);
        assert("max_context_window"@.len() == 18);
        assert("effective_context_window_percent"@.len() == 32);
        assert("default_service_tier"@.len() == 20);
        assert("upgrade"@.len() == 7);
        assert("model_messages"@.len() == 14);
        assert("default_verbosity"@.len() == 17);
        assert("apply_patch_tool_type"@.len() == 21);
        assert("auto_compact_token_limit"@.len() == 24);
        assert("comp_hash"@.len() == 9);
        assert("auto_review_model_override"@.len() == 26);
        assert("tool_mode"@.len() == 9);
        assert("multi_agent_version"@.len() == 19);
        assert("additional_speed_tiers"@.len() == 22);
        assert("service_tiers"@.len() == 13);
        assert("experimental_supported_tools"@.len() == 28);
        assert("priority"@.len() == 8);
        assert("availability_nux"@.len() == 16);
        assert("truncation_policy"@.len() == 17);
        assert("supported_reasoning_levels"@.len() == 26);
        assert("input_modalities"@.len() == 16);
        assert("shell_type"@[0] == 's' && "visibility"@[0] == 'v');
        assert("base_instructions"@[0] == 'b' && "support_verbosity"@[0] == 's');
        assert("base_instructions"@[0] == 'b' && "default_verbosity"@[0] == 'd');
        assert("base_instructions"@[0] == 'b' && "truncation_policy"@[0] == 't');
        assert("web_search_tool_type"@[0] == 'w' && "supports_search_tool"@[0] == 's');
        assert("web_search_tool_type"@[0] == 'w' && "default_service_tier"@[0] == 'd');
        assert("supported_in_api"@[0] == 's' && "availability_nux"@[0] == 'a');
        assert("supported_in_api"@[0] == 's' && "input_modalities"@[0] == 'i');
        assert("supports_reasoning_summaries"@[9] == 'r' && "supports_parallel_tool_calls"@[9] == 'p');
        assert("supports_reasoning_summaries"@[0] == 's' && "experimental_supported_tools"@[0] == 'e');
        assert("support_verbosity"@[0] == 's' && "default_verbosity"@[0] == 'd');
        assert("support_verbosity"@[0] == 's' && "truncation_policy"@[0] == 't');
        assert("supports_parallel_tool_calls"@[0] == 's' && "experimental_supported_tools"@[0] == 'e');
        assert("supports_search_tool"@[0] == 's' && "default_service_tier"@[0] == 'd');
        assert("use_responses_lite"@[0] == 'u' && "max_context_window"@[0] == 'm');
        assert("context_window"@[0] == 'c' && "model_messages"@[0] == 'm');
        assert("default_verbosity"@[0] == 'd' && "truncation_policy"@[0] == 't');
        assert("comp_hash"@[0] == 'c' && "tool_mode"@[0] == 't');
        assert("auto_review_model_override"@[0] == 'a' && "supported_reasoning_levels"@[0] == 's');
        assert("availability_nux"@[0] == 'a' && "input_modalities"@[0] == 'i');
    }
    Ok(model)
}

/// The items of the catalog's `models` list, or `None` when it has none.
pub open spec fn catalog_models(catalog: serde_json::Value) -> Option<Seq<serde_json::Value>> {
    match json_member(catalog, "models"@) {
        Some(models) => json_items(models),
        None => None,
    }
}

/// The text of a member of an entry, or `None` when it is missing or not a string.
pub open spec fn member_text(entry: serde_json::Value, key: Seq<char>) -> Option<Seq<char>> {
    match json_member(entry, key) {
        Some(member) => json_text(member),
        None => None,
    }
}

/// The slugs of the entries before injected model `k`: those of the catalog's entries, then
/// those of the models injected before it.
pub open spec fn catalog_slugs_before(
    items: Seq<serde_json::Value>,
    descriptors: Seq<InjectedModelDescriptor>,
    k: int,
) -> Seq<Option<Seq<char>>> {
    items.map_values(|item: serde_json::Value| member_text(item, "slug"@)) + descriptors.take(k).map_values(
        |d: InjectedModelDescriptor| Some(d.model@),
    )
}

/// Injected model `k` has the slug of an earlier entry.
pub open spec fn catalog_collision(items: Seq<serde_json::Value>, descriptors: Seq<InjectedModelDescriptor>, k: int) -> bool {
    catalog_slugs_before(items, descriptors, k).contains(Some(descriptors[k].model@))
}

/// `value` is the JSON over `template` of the Grok entry for `descriptor`, the injected
/// model at `index` after `count` catalog entries.
pub open spec fn grok_entry_value(
    value: serde_json::Value,
    template: serde_json::Value,
    descriptor: InjectedModelDescriptor,
    instructions: Seq<char>,
    count: int,
    index: int,
) -> bool {
    exists|entry: GrokCatalogEntry|
        grok_entry_for(entry, descriptor, instructions, count, index) && #[trigger] entry_value_of(value, template, entry)
}

/// `after` is `before` with its `models` list, `items`, followed by the JSON of one Grok
/// entry per injected model over the first item, in order; its other members as they were.
pub open spec fn appended_catalog(
    after: serde_json::Value,
    before: serde_json::Value,
    items: Seq<serde_json::Value>,
    descriptors: Seq<InjectedModelDescriptor>,
    instructions: Seq<char>,
) -> bool {
    &&& json_object(after)
    &&& forall|key: Seq<char>| key != "models"@ ==> #[trigger] json_member(after, key) == json_member(before, key)
    &&& catalog_models(after) matches Some(models) && models.len() == items.len() + descriptors.len() && models.take(
        items.len() as int,
    ) == items && forall|j: int|
        0 <= j < descriptors.len() ==> grok_entry_value(
            #[trigger] models[items.len() + j],
            items[0],
            descriptors[j],
            instructions,
            items.len() as int,
            j,
        )
}

/// Appends to the catalog's `models` list one entry per injected model, each over a copy of
/// the first (the official default) entry, in order: refused when the catalog has no
/// `models` list or an empty one, when the default entry's `base_instructions` are missing
/// or blank, or at the first model whose slug an earlier entry already has. A refused
/// catalog is left as it was.
pub fn append_grok_catalog_entries(
    catalog: &mut serde_json::Value,
    descriptors: &Vec<InjectedModelDescriptor>,
) -> (result: Result<(), CatalogError>)
    requires
        descriptors@.len() <= usize::MAX / 2,
    ensures
        result is Err ==> *final(catalog) == *old(catalog),
        (result == Err::<(), CatalogError>(CatalogError::NoModels)) <==> catalog_models(*old(catalog)) is None,
        catalog_models(*old(catalog)) matches Some(items) ==> {
            &&& (result == Err::<(), CatalogError>(CatalogError::EmptyCatalog)) <==> items.len() == 0
            &&& items.len() > 0 ==> {
                let instructions = member_text(items[0], "base_instructions"@);
                &&& (result == Err::<(), CatalogError>(CatalogError::NoInstructions)) <==> match instructions {
                    Some(text) => is_blank(text),
                    None => true,
                }
                &&& result != Err::<(), CatalogError>(CatalogError::TemplateNotObject)
                &&& forall|k: usize|
                    result == Err::<(), CatalogError>(CatalogError::Collision(k)) ==> k < descriptors@.len()
                        && catalog_collision(items, descriptors@, k as int) && forall|j: int|
                        0 <= j < k ==> !#[trigger] catalog_collision(items, descriptors@, j)
                &&& (instructions matches Some(text) && !is_blank(text) && forall|j: int|
                    0 <= j < descriptors@.len() ==> !#[trigger] catalog_collision(items, descriptors@, j)) ==> result is Ok
                &&& result is Ok ==> (instructions matches Some(text) && appended_catalog(
                    *final(catalog),
                    *old(catalog),
                    items,
                    descriptors@,
                    text,
                ))
            }
        },
{
    let models = match json_get(catalog, "models") {
        Some(models) => models,
        None => return Err(CatalogError::NoModels),
    };
    let mut items = match json_array_items(models) {
        Some(items) => items,
        None => return Err(CatalogError::NoModels),
    };
    if items.len() == 0 {
        return Err(CatalogError::EmptyCatalog);
    }
    let ghost old_items = items@;
    let template = json_clone(&items[0]);
    let instructions: Option<String> = match json_get(&template, "base_instructions") {
        Some(member) => json_as_text(member),
        None => None,
    };
    let mut slugs: Vec<Option<String>> = Vec::new();
    for i in 0..items.len()
        invariant
            slugs@.len() == i,
            forall|j: int|
                0 <= j < i ==> crate::catalog_entry::slug_views(slugs@)[j] == member_text(#[trigger] items@[j], "slug"@),
    {
        let slug = match json_get(&items[i], "slug") {
            Some(member) => json_as_text(member),
            None => None,
        };
        let ghost before = slugs@;
        slugs.push(slug);
        proof {
            assert forall|j: int| 0 <= j < i + 1 implies crate::catalog_entry::slug_views(slugs@)[j] == member_text(
                #[trigger] items@[j],
                "slug"@,
            ) by {
                if j < i {
                    assert(slugs@[j] == before[j]);
                }
            }
        }
    }
    proof {
        assert forall|k: int| 0 <= k <= descriptors@.len() implies #[trigger] slugs_before(slugs@, descriptors@, k)
            == catalog_slugs_before(items@, descriptors@, k) by {
            assert(crate::catalog_entry::slug_views(slugs@) =~= items@.map_values(
                |item: serde_json::Value| member_text(item, "slug"@),
            ));
        }
    }
    let official_instructions: Option<&str> = match &instructions {
        Some(text) => Some(text.as_str()),
        None => None,
    };
    let entries = match grok_catalog_entries(official_instructions, &slugs, descriptors) {
        Ok(entries) => entries,
        Err(error) => {
            proof {
                if forall|j: int| 0 <= j < descriptors@.len() ==> !#[trigger] catalog_collision(items@, descriptors@, j) {
                    assert forall|j: int| 0 <= j < descriptors@.len() implies !slugs_before(slugs@, descriptors@, j).contains(
                        Some(#[trigger] descriptors@[j].model@),
                    ) by {
                        assert(slugs_before(slugs@, descriptors@, j) == catalog_slugs_before(items@, descriptors@, j));
                        assert(!catalog_collision(items@, descriptors@, j));
                    }
                }
                if let CatalogError::Collision(k) = error {
                    assert(slugs_before(slugs@, descriptors@, k as int) == catalog_slugs_before(items@, descriptors@, k as int));
                    assert forall|j: int| 0 <= j < k implies !#[trigger] catalog_collision(items@, descriptors@, j) by {
                        assert(slugs_before(slugs@, descriptors@, j) == catalog_slugs_before(items@, descriptors@, j));
                    }
                }
            }
            return Err(error);
        },
    };
    proof {
        assert forall|j: int| 0 <= j < descriptors@.len() implies !#[trigger] catalog_collision(items@, descriptors@, j) by {
            assert(slugs_before(slugs@, descriptors@, j) == catalog_slugs_before(items@, descriptors@, j));
        }
    }
    let ghost text = instructions->0@;
    let count = items.len();
    for k in 0..entries.len()
        invariant
            entries@.len() == descriptors@.len(),
            items@.len() == count + k,
            count == old_items.len(),
            count > 0,
            json_object(template),
            template == old_items[0],
            items@.take(count as int) == old_items,
            forall|j: int|
                0 <= j < descriptors@.len() ==> grok_entry_for(
                    #[trigger] entries@[j],
                    descriptors@[j],
                    text,
                    count as int,
                    j,
                ),
            forall|j: int|
                0 <= j < k ==> grok_entry_value(#[trigger] items@[count + j], template, descriptors@[j], text, count as int, j),
    {
        let value = match catalog_entry_value(&template, &entries[k]) {
            Ok(value) => value,
            Err(error) => return Err(error),
        };
        let ghost before = items@;
        items.push(value);
        proof {
            assert(grok_entry_for(entries@[k as int], descriptors@[k as int], text, count as int, k as int));
            assert(entry_value_of(value, template, entries@[k as int]));
            assert(grok_entry_value(items@[count + k], template, descriptors@[k as int], text, count as int, k as int));
            assert forall|j: int| 0 <= j < k + 1 implies grok_entry_value(
                #[trigger] items@[count + j],
                template,
                descriptors@[j],
                text,
                count as int,
                j,
            ) by {
                if j < k {
                    assert(items@[count + j] == before[count + j]);
                }
            }
            assert(items@.take(count as int) =~= before.take(count as int));
        }
    }
    let list = json_array(items);
    let ghost before = *catalog;
    let stored = json_insert(catalog, "models", list);
    proof {
        reveal_strlit("models");
    }
    Ok(())
}

/// Whether an entry's default reasoning summary is a text other than `none`, in any ASCII
/// case.
pub open spec fn summaries_supported(entry: serde_json::Value) -> bool {
    member_text(entry, "default_reasoning_summary"@) matches Some(summary) && ascii_lower(summary) != ascii_lower(
        "none"@,
    )
}

/// `after` is the catalog entry `before` with `supports_reasoning_summaries` filled in when
/// it lacks the member: `true` exactly when its default reasoning summary is not `none`.
pub open spec fn normalized_entry(after: serde_json::Value, before: serde_json::Value) -> bool {
    if json_member(before, "supports_reasoning_summaries"@) is Some {
        after == before
    } else {
        &&& json_object(after)
        &&& has_bool(after, "supports_reasoning_summaries"@, summaries_supported(before))
        &&& forall|key: Seq<char>|
            key != "supports_reasoning_summaries"@ ==> #[trigger] json_member(after, key) == json_member(before, key)
    }
}

/// `after` is `before` with each entry of its `models` list, `items`, normalized, and its
/// other members as they were.
pub open spec fn normalized_catalog(after: serde_json::Value, before: serde_json::Value, items: Seq<serde_json::Value>) -> bool {
    &&& json_object(after)
    &&& forall|key: Seq<char>| key != "models"@ ==> #[trigger] json_member(after, key) == json_member(before, key)
    &&& catalog_models(after) matches Some(models) && models.len() == items.len() && forall|i: int|
        0 <= i < items.len() ==> normalized_entry(#[trigger] models[i], items[i])
}

/// Fills in `supports_reasoning_summaries` in each entry of the catalog's `models` list
/// that lacks it: refused when the catalog has no `models` list, or at an entry that is not
/// an object. A refused catalog is left as it was.
pub fn normalize_official_model_catalog(catalog: &mut serde_json::Value) -> (result: Result<(), CatalogError>)
    ensures
        result is Err ==> *final(catalog) == *old(catalog),
        (result == Err::<(), CatalogError>(CatalogError::NoModels)) <==> catalog_models(*old(catalog)) is None,
        catalog_models(*old(catalog)) matches Some(items) ==> {
            &&& result == Err::<(), CatalogError>(CatalogError::EntryNotObject) ==> exists|i: int|
                0 <= i < items.len() && !json_object(#[trigger] items[i])
            &&& (forall|i: int| 0 <= i < items.len() ==> json_object(#[trigger] items[i])) ==> result is Ok
            &&& result is Ok ==> normalized_catalog(*final(catalog), *old(catalog), items)
        },
        result is Ok || result == Err::<(), CatalogError>(CatalogError::NoModels) || result == Err::<(), CatalogError>(
            CatalogError::EntryNotObject,
        ),
{
    let models = match json_get(catalog, "models") {
        Some(models) => models,
        None => return Err(CatalogError::NoModels),
    };
    let items = match json_array_items(models) {
        Some(items) => items,
        None => return Err(CatalogError::NoModels),
    };
    let none = chars_of("none");
    let mut normalized: Vec<serde_json::Value> = Vec::new();
    for i in 0..items.len()
        invariant
            normalized@.len() == i,
            none@ == "none"@,
            *catalog == *old(catalog),
            catalog_models(*catalog) == Some(items@),
            forall|j: int| 0 <= j < i ==> json_object(#[trigger] items@[j]),
            forall|j: int| 0 <= j < i ==> normalized_entry(#[trigger] normalized@[j], items@[j]),
    {
        if !crate::json::json_is_object(&items[i]) {
            proof {
                assert(!json_object(items@[i as int]));
                assert(catalog_models(*old(catalog)) == Some(items@));
                let cur = catalog_models(*old(catalog))->0;
                assert(cur[i as int] == items@[i as int]);
                assert(exists|j: int| 0 <= j < cur.len() && !json_object(#[trigger] cur[j]));
                assert(*catalog == *old(catalog));
            }
            return Err(CatalogError::EntryNotObject);
        }
        let mut entry = json_clone(&items[i]);
        if json_get(&entry, "supports_reasoning_summaries").is_none() {
            let supported = match json_get(&entry, "default_reasoning_summary") {
                Some(member) => match json_as_text(member) {
                    Some(summary) => !eq_ignore_ascii_case(chars_of(summary.as_str()).as_slice(), none.as_slice()),
                    None => false,
                },
                None => false,
            };
            put(&mut entry, "supports_reasoning_summaries", json_bool_value(supported));
        }
        let ghost before = normalized@;
        normalized.push(entry);
        proof {
            assert forall|j: int| 0 <= j < i + 1 implies normalized_entry(#[trigger] normalized@[j], items@[j]) by {
                if j < i {
                    assert(normalized@[j] == before[j]);
                }
            }
        }
    }
    let list = json_array(normalized);
    let stored = json_insert(catalog, "models", list);
    proof {
        reveal_strlit("models");
    }
    Ok(())
}

} // verus!
