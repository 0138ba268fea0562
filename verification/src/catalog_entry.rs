//! The entries a Grok model adds to the native model catalog: the members each sets over a
//! copy of the official default entry, and the check that no injected slug is taken.

use vstd::prelude::*;

use crate::bootstrap::{InjectedModelDescriptor, InjectedReasoningEffort};
use crate::model_catalog::{
    catalog_priority, collides_with_official, grok_base_instructions, grok_instructions, slug_is,
    usable_official_instructions, CONSERVATIVE_CLIENT_CONTEXT_WINDOW,
};
use crate::text::is_blank;

verus! {

/// The members a Grok entry sets to `null` over the official default entry.
pub const GROK_ENTRY_NULL_MEMBERS: [&'static str; 10] = [
    "default_service_tier",
    "upgrade",
    "model_messages",
    "default_verbosity",
    "apply_patch_tool_type",
    "auto_compact_token_limit",
    "comp_hash",
    "auto_review_model_override",
    "tool_mode",
    "multi_agent_version",
];

/// The members a Grok entry sets to an empty list over the official default entry.
pub const GROK_ENTRY_EMPTY_LIST_MEMBERS: [&'static str; 3] = [
    "additional_speed_tiers",
    "service_tiers",
    "experimental_supported_tools",
];

/// The message of a Grok entry's `availability_nux` member.
pub const GROK_AVAILABILITY_MESSAGE: &'static str = "codex-administrator:grok-native-catalog-v1";

/// The byte limit of a Grok entry's truncation policy.
pub const GROK_TRUNCATION_LIMIT_BYTES: u64 = 10000;

/// The share of its context window a Grok entry may use, in percent.
pub const GROK_EFFECTIVE_CONTEXT_WINDOW_PERCENT: u64 = 95;

/// The members a Grok entry sets over a copy of the official default entry, other than
/// those of `GROK_ENTRY_NULL_MEMBERS` and `GROK_ENTRY_EMPTY_LIST_MEMBERS`.
#[derive(Debug, Clone, PartialEq, Eq)]
pub struct GrokCatalogEntry {
    pub slug: String,
    pub display_name: String,
    pub description: String,
    pub default_reasoning_level: String,
    /// Written as objects of `effort` and `description`.
    pub supported_reasoning_levels: Vec<InjectedReasoningEffort>,
    pub shell_type: String,
    pub visibility: String,
    pub supported_in_api: bool,
    pub priority: i64,
    /// Written as `availability_nux: {"message": ...}`.
    pub availability_message: String,
    pub base_instructions: String,
    pub include_skills_usage_instructions: bool,
    pub supports_reasoning_summaries: bool,
    pub default_reasoning_summary: String,
    pub support_verbosity: bool,
    pub web_search_tool_type: String,
    /// Written as `truncation_policy: {"mode": "bytes", "limit": ...}`.
    pub truncation_limit_bytes: u64,
    pub supports_parallel_tool_calls: bool,
    pub supports_image_detail_original: bool,
    pub context_window: u64,
    pub max_context_window: u64,
    pub effective_context_window_percent: u64,
    pub input_modalities: Vec<String>,
    pub supports_search_tool: bool,
    pub use_responses_lite: bool,
}

/// A position in the catalog as a priority, held at `i64::MAX` past it.
pub open spec fn capped_priority(position: int) -> i64 {
    if position <= i64::MAX {
        position as i64
    } else {
        i64::MAX
    }
}

pub open spec fn effort_views(efforts: Seq<InjectedReasoningEffort>) -> Seq<(Seq<char>, Seq<char>)> {
    efforts.map_values(|e: InjectedReasoningEffort| (e.reasoning_effort@, e.description@))
}

pub open spec fn text_views(texts: Seq<String>) -> Seq<Seq<char>> {
    texts.map_values(|t: String| t@)
}

fn copy_efforts(efforts: &Vec<InjectedReasoningEffort>) -> (result: Vec<InjectedReasoningEffort>)
    ensures
        effort_views(result@) == effort_views(efforts@),
{
    let mut out: Vec<InjectedReasoningEffort> = Vec::new();
    for i in 0..efforts.len()
        invariant
            out@.len() == i,
            forall|j: int| 0 <= j < i ==> (#[trigger] out@[j]).reasoning_effort@ == efforts@[j].reasoning_effort@
                && out@[j].description@ == efforts@[j].description@,
    {
        out.push(
            InjectedReasoningEffort {
                reasoning_effort: efforts[i].reasoning_effort.clone(),
                description: efforts[i].description.clone(),
            },
        );
    }
    proof {
        assert(effort_views(out@) =~= effort_views(efforts@));
    }
    out
}

fn copy_texts(texts: &Vec<String>) -> (result: Vec<String>)
    ensures
        text_views(result@) == text_views(texts@),
{
    let mut out: Vec<String> = Vec::new();
    for i in 0..texts.len()
        invariant
            out@.len() == i,
            forall|j: int| 0 <= j < i ==> (#[trigger] out@[j])@ == texts@[j]@,
    {
        out.push(texts[i].clone());
    }
    proof {
        assert(text_views(out@) =~= text_views(texts@));
    }
    out
}

/// `entry` is the Grok entry for `descriptor`, the injected model at `index` after
/// `official_count` official entries whose default entry has `official_instructions`: the
/// descriptor's slug, names, reasoning levels and input modalities; the fixed settings of a
/// Grok entry, its context held to `CONSERVATIVE_CLIENT_CONTEXT_WINDOW` tokens; its place as
/// priority; and the official instructions with the Grok identity.
pub open spec fn grok_entry_for(
    entry: GrokCatalogEntry,
    descriptor: InjectedModelDescriptor,
    official_instructions: Seq<char>,
    official_count: int,
    index: int,
) -> bool {
    &&& entry.slug@ == descriptor.model@
    &&& entry.display_name@ == descriptor.display_name@
    &&& entry.description@ == descriptor.description@
    &&& entry.default_reasoning_level@ == descriptor.default_reasoning_effort@
    &&& effort_views(entry.supported_reasoning_levels@) == effort_views(descriptor.supported_reasoning_efforts@)
    &&& entry.shell_type@ == "shell_command"@
    &&& entry.visibility@ == "none"@
    &&& entry.supported_in_api
    &&& entry.priority == capped_priority(official_count + index)
    &&& entry.availability_message@ == GROK_AVAILABILITY_MESSAGE@
    &&& entry.base_instructions@ == grok_instructions(official_instructions, descriptor.display_name@)
    &&& !entry.include_skills_usage_instructions
    &&& !entry.supports_reasoning_summaries
    &&& entry.default_reasoning_summary@ == "none"@
    &&& !entry.support_verbosity
    &&& entry.web_search_tool_type@ == "text"@
    &&& entry.truncation_limit_bytes == GROK_TRUNCATION_LIMIT_BYTES
    &&& !entry.supports_parallel_tool_calls
    &&& !entry.supports_image_detail_original
    &&& entry.context_window == CONSERVATIVE_CLIENT_CONTEXT_WINDOW
    &&& entry.max_context_window == CONSERVATIVE_CLIENT_CONTEXT_WINDOW
    &&& entry.effective_context_window_percent == GROK_EFFECTIVE_CONTEXT_WINDOW_PERCENT
    &&& text_views(entry.input_modalities@) == text_views(descriptor.input_modalities@)
    &&& !entry.supports_search_tool
    &&& !entry.use_responses_lite
}

/// The Grok entry for `descriptor`, the injected model at `index` after `official_count`
/// official entries whose default entry has `official_instructions`.
pub fn grok_catalog_entry(
    descriptor: &InjectedModelDescriptor,
    official_instructions: &str,
    official_count: usize,
    index: usize,
) -> (result: GrokCatalogEntry)
    requires
        official_count + index <= usize::MAX,
    ensures
        grok_entry_for(result, *descriptor, official_instructions@, official_count as int, index as int),
{
    GrokCatalogEntry {
        slug: descriptor.model.clone(),
        display_name: descriptor.display_name.clone(),
        description: descriptor.description.clone(),
        default_reasoning_level: descriptor.default_reasoning_effort.clone(),
        supported_reasoning_levels: copy_efforts(&descriptor.supported_reasoning_efforts),
        shell_type: String::from_str("shell_command"),
        visibility: String::from_str("none"),
        supported_in_api: true,
        priority: catalog_priority(official_count, index),
        availability_message: String::from_str(GROK_AVAILABILITY_MESSAGE),
        base_instructions: grok_base_instructions(official_instructions, descriptor.display_name.as_str()),
        include_skills_usage_instructions: false,
        supports_reasoning_summaries: false,
        default_reasoning_summary: String::from_str("none"),
        support_verbosity: false,
        web_search_tool_type: String::from_str("text"),
        truncation_limit_bytes: GROK_TRUNCATION_LIMIT_BYTES,
        supports_parallel_tool_calls: false,
        supports_image_detail_original: false,
        context_window: CONSERVATIVE_CLIENT_CONTEXT_WINDOW,
        max_context_window: CONSERVATIVE_CLIENT_CONTEXT_WINDOW,
        effective_context_window_percent: GROK_EFFECTIVE_CONTEXT_WINDOW_PERCENT,
        input_modalities: copy_texts(&descriptor.input_modalities),
        supports_search_tool: false,
        use_responses_lite: false,
    }
}

/// Why the Grok entries cannot join the official catalog.
#[derive(Debug, Clone, Copy, PartialEq, Eq, Structural)]
pub enum CatalogError {
    NoInstructions,
    /// The injected model at this index has the slug of an earlier entry.
    Collision(usize),
    /// The catalog has no `models` list.
    NoModels,
    /// The catalog's `models` list is empty.
    EmptyCatalog,
    /// The official default entry is not an object.
    TemplateNotObject,
    /// An entry of the catalog is not an object.
    EntryNotObject,
}

/// The slugs of the entries before injected model `k`: the official ones, then the
/// injected ones before it.
pub open spec fn slugs_before(
    official: Seq<Option<String>>,
    descriptors: Seq<InjectedModelDescriptor>,
    k: int,
) -> Seq<Option<Seq<char>>> {
    slug_views(official) + descriptors.take(k).map_values(|d: InjectedModelDescriptor| Some(d.model@))
}

pub open spec fn slug_views(slugs: Seq<Option<String>>) -> Seq<Option<Seq<char>>> {
    slugs.map_values(|s: Option<String>| match s {
        Some(t) => Some(t@),
        None => None,
    })
}

/// The Grok entries for `descriptors`, in order, after the official entries whose slugs
/// are `official_slugs` (`None` for an entry without a string slug): refused when the
/// official instructions are missing or blank, or when a model's slug is already taken by
/// an official entry or an earlier injected one.
pub fn grok_catalog_entries(
    official_instructions: Option<&str>,
    official_slugs: &Vec<Option<String>>,
    descriptors: &Vec<InjectedModelDescriptor>,
) -> (result: Result<Vec<GrokCatalogEntry>, CatalogError>)
    requires
        official_slugs@.len() + descriptors@.len() <= usize::MAX,
    ensures
        match official_instructions {
            Some(text) => is_blank(text@),
            None => true,
        } ==> result == Err::<Vec<GrokCatalogEntry>, CatalogError>(CatalogError::NoInstructions),
        result matches Err(CatalogError::Collision(k)) ==> k < descriptors@.len() && slugs_before(
            official_slugs@,
            descriptors@,
            k as int,
        ).contains(Some(descriptors@[k as int].model@)) && forall|j: int|
            0 <= j < k ==> !slugs_before(official_slugs@, descriptors@, j).contains(
                Some(#[trigger] descriptors@[j].model@),
            ),
        result is Ok ==> forall|j: int|
            0 <= j < descriptors@.len() ==> !slugs_before(official_slugs@, descriptors@, j).contains(
                Some(#[trigger] descriptors@[j].model@),
            ),
        result matches Err(error) ==> error == CatalogError::NoInstructions || error is Collision,
        result matches Err(CatalogError::NoInstructions) ==> match official_instructions {
            Some(text) => is_blank(text@),
            None => true,
        },
        (official_instructions matches Some(text) && !is_blank(text@)) && (forall|j: int|
            0 <= j < descriptors@.len() ==> !slugs_before(official_slugs@, descriptors@, j).contains(
                Some(#[trigger] descriptors@[j].model@),
            )) ==> result is Ok,
        result matches Ok(entries) ==> official_instructions matches Some(text) && entries@.len() == descriptors@.len()
            && forall|j: int|
            0 <= j < descriptors@.len() ==> grok_entry_for(
                #[trigger] entries@[j],
                descriptors@[j],
                text@,
                official_slugs@.len() as int,
                j,
            ),
{
    if !usable_official_instructions(official_instructions) {
        return Err(CatalogError::NoInstructions);
    }
    let instructions = match official_instructions {
        Some(text) => text,
        None => return Err(CatalogError::NoInstructions),
    };
    let mut slugs: Vec<Option<String>> = Vec::new();
    for i in 0..official_slugs.len()
        invariant
            slugs@.len() == i,
            forall|j: int| 0 <= j < i ==> #[trigger] slugs@[j] == official_slugs@[j],
    {
        slugs.push(
            match &official_slugs[i] {
                Some(slug) => Some(slug.clone()),
                None => None,
            },
        );
    }
    let mut entries: Vec<GrokCatalogEntry> = Vec::new();
    proof {
        assert(descriptors@.take(0) =~= Seq::<InjectedModelDescriptor>::empty());
        assert(slug_views(slugs@) =~= slugs_before(official_slugs@, descriptors@, 0));
    }
    for k in 0..descriptors.len()
        invariant
            official_slugs@.len() + descriptors@.len() <= usize::MAX,
            official_instructions == Some(instructions),
            !is_blank(instructions@),
            entries@.len() == k,
            slug_views(slugs@) == slugs_before(official_slugs@, descriptors@, k as int),
            forall|j: int|
                0 <= j < k ==> !slugs_before(official_slugs@, descriptors@, j).contains(
                    Some(#[trigger] descriptors@[j].model@),
                ),
            forall|j: int|
                0 <= j < k ==> grok_entry_for(
                    #[trigger] entries@[j],
                    descriptors@[j],
                    instructions@,
                    official_slugs@.len() as int,
                    j,
                ),
    {
        let descriptor = &descriptors[k];
        let ghost seen = slugs_before(official_slugs@, descriptors@, k as int);
        let ghost mapped = slug_views(slugs@);
        if collides_with_official(&slugs, descriptor.model.as_str()) {
            proof {
                let i = choose|i: int| 0 <= i < slugs@.len() && slug_is(#[trigger] slugs@[i], descriptor.model@);
                assert(mapped[i] == Some(descriptor.model@));
            }
            return Err(CatalogError::Collision(k));
        }
        proof {
            if seen.contains(Some(descriptor.model@)) {
                let i = choose|i: int| 0 <= i < seen.len() && seen[i] == Some(descriptor.model@);
                assert(slug_is(slugs@[i], descriptor.model@));
            }
        }
        let entry = grok_catalog_entry(descriptor, instructions, official_slugs.len(), k);
        entries.push(entry);
        let ghost before = slugs@;
        slugs.push(Some(descriptor.model.clone()));
        proof {
            assert(slug_views(slugs@) =~= slug_views(before).push(Some(descriptor.model@)));
            assert(descriptors@.take(k + 1) =~= descriptors@.take(k as int).push(descriptors@[k as int]));
            assert(slug_views(slugs@) =~= slugs_before(official_slugs@, descriptors@, k + 1));
        }
    }
    Ok(entries)
}

} // verus!
