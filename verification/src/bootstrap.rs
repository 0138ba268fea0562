//! What the renderer bootstrap is configured with: the Grok models to inject, with their
//! reviewed reasoning efforts and input modalities, and the model picker's settings.

use vstd::prelude::*;

use crate::compatibility::{ascii_lower, ascii_lower_char, to_ascii_lower_char};
use crate::digest::{char_is_hex, is_hex_char};
use crate::host::HostAdapterKind;
use crate::launcher_settings::{provider_base_url_outcome, provider_base_url_for_action_path};
use crate::model_discovery::{ends_with, is_reviewed_grok_model, is_reviewed_grok_model_id, starts_with, ModelError};
use crate::renderer_addons::{
    settings_outcome, RendererAddonCatalogEntry, RendererAddonError, RendererAddonReport, RendererAddonSettings,
};
use crate::strings::{push_chars, string_from_chars};
use crate::text::{chars_equal, chars_of, is_bounded_clean, is_bounded_clean_chars};

verus! {

/// A reasoning effort that an injected model offers.
#[derive(Debug, Clone, PartialEq, Eq)]
pub struct InjectedReasoningEffort {
    pub reasoning_effort: String,
    pub description: String,
}

/// A model to inject into the official model picker.
#[derive(Debug, Clone, PartialEq, Eq)]
pub struct InjectedModelDescriptor {
    pub model: String,
    pub display_name: String,
    pub description: String,
    pub supported_reasoning_efforts: Vec<InjectedReasoningEffort>,
    pub default_reasoning_effort: String,
    pub input_modalities: Vec<String>,
}

/// Why a model descriptor or a bootstrap configuration was refused.
#[derive(Debug, Clone, Copy, PartialEq, Eq, Structural)]
pub enum BootstrapError {
    InvalidModelId,
    NotGrokModel,
    UnreviewedModel,
    InvalidDisplayName,
    InvalidDescription,
    EffortCount,
    InvalidEffort,
    InvalidEffortDescription,
    DuplicateEffort,
    DefaultEffortMissing,
    ModalityCount,
    InvalidModality,
    DuplicateModality,
    TooManyModels,
    DuplicateModel,
    Endpoint(ModelError),
    TooManyAddons,
    Addon(RendererAddonError),
    DuplicateAddon,
    DuplicateCatalogEntry,
    InvalidControlNonce,
}

/// A text field of a descriptor: trimmed, at most `max_len` bytes, free of control
/// characters, and not empty unless `allow_empty`.
pub open spec fn is_field_text(s: Seq<char>, max_len: usize, allow_empty: bool) -> bool {
    (allow_empty && s.len() == 0) || is_bounded_clean_chars(s, max_len)
}

fn field_text(value: &String, max_len: usize, allow_empty: bool) -> (result: bool)
    ensures
        result == is_field_text(value@, max_len, allow_empty),
{
    (allow_empty && chars_of(value.as_str()).len() == 0) || is_bounded_clean(value.as_str(), max_len)
}

/// The reasoning effort that a model id fixes by its suffix: the first of `xhigh`, `high`,
/// `medium` and `low` that the lowercased id ends in, after a `-`.
pub open spec fn fixed_effort(model: Seq<char>) -> Option<Seq<char>> {
    let lower = ascii_lower(model);
    if ends_with(lower, "-xhigh"@) {
        Some("xhigh"@)
    } else if ends_with(lower, "-high"@) {
        Some("high"@)
    } else if ends_with(lower, "-medium"@) {
        Some("medium"@)
    } else if ends_with(lower, "-low"@) {
        Some("low"@)
    } else {
        None
    }
}

fn lower_chars(text: &String) -> (result: Vec<char>)
    ensures
        result@ == ascii_lower(text@),
{
    let chars = chars_of(text.as_str());
    let mut out: Vec<char> = Vec::new();
    for i in 0..chars.len()
        invariant
            out@ == ascii_lower(chars@.take(i as int)),
    {
        proof {
            assert(ascii_lower(chars@.take(i + 1)) =~= ascii_lower(chars@.take(i as int)).push(
                ascii_lower_char(chars@[i as int]),
            ));
        }
        out.push(to_ascii_lower_char(chars[i]));
    }
    proof {
        assert(chars@.take(chars@.len() as int) =~= chars@);
    }
    out
}

fn ends_in(chars: &Vec<char>, suffix: &str) -> (result: bool)
    ensures
        result == ends_with(chars@, suffix@),
{
    let s = chars_of(suffix);
    let n = chars.len();
    let m = s.len();
    if n < m {
        return false;
    }
    let tail = crate::text::slice_chars(chars.as_slice(), n - m, n);
    proof {
        assert(tail@ =~= chars@.skip(n - m));
    }
    chars_equal(tail.as_slice(), s.as_slice())
}

/// The reasoning effort that `model` fixes by its suffix, if any.
pub fn fixed_reasoning_effort(model: &String) -> (result: Option<String>)
    ensures
        match result {
            Some(effort) => fixed_effort(model@) == Some(effort@),
            None => fixed_effort(model@) is None,
        },
{
    let lower = lower_chars(model);
    if ends_in(&lower, "-xhigh") {
        Some(String::from_str("xhigh"))
    } else if ends_in(&lower, "-high") {
        Some(String::from_str("high"))
    } else if ends_in(&lower, "-medium") {
        Some(String::from_str("medium"))
    } else if ends_in(&lower, "-low") {
        Some(String::from_str("low"))
    } else {
        None
    }
}

pub open spec fn effort_view(effort: InjectedReasoningEffort) -> (Seq<char>, Seq<char>) {
    (effort.reasoning_effort@, effort.description@)
}

pub open spec fn efforts_view(efforts: Seq<InjectedReasoningEffort>) -> Seq<(Seq<char>, Seq<char>)> {
    efforts.map_values(|effort: InjectedReasoningEffort| effort_view(effort))
}

pub open spec fn texts_view(values: Seq<String>) -> Seq<Seq<char>> {
    values.map_values(|value: String| value@)
}

/// The descriptor of a Grok model: `grok-4.5` offers low, medium and high (default high)
/// and takes text and images; a model whose id fixes an effort offers only that one; any
/// other offers medium. All but `grok-4.5` take text only.
pub open spec fn grok_descriptor(model: Seq<char>, result: &InjectedModelDescriptor) -> bool {
    &&& result.model@ == model
    &&& result.display_name@ == model
    &&& result.description@ == "Configured xAI model; new tasks only"@
    &&& if model == "grok-4.5"@ {
        &&& efforts_view(result.supported_reasoning_efforts@) == seq![
            ("low"@, "Faster responses with lighter reasoning"@),
            ("medium"@, "Balanced reasoning"@),
            ("high"@, "Deeper reasoning (default)"@),
        ]
        &&& result.default_reasoning_effort@ == "high"@
        &&& texts_view(result.input_modalities@) == seq!["text"@, "image"@]
    } else {
        &&& match fixed_effort(model) {
            Some(effort) => {
                &&& efforts_view(result.supported_reasoning_efforts@) == seq![
                    (effort, "Reasoning effort fixed by the "@ + model + " alias"@),
                ]
                &&& result.default_reasoning_effort@ == effort
            },
            None => {
                &&& efforts_view(result.supported_reasoning_efforts@) == seq![("medium"@, "Balanced reasoning"@)]
                &&& result.default_reasoning_effort@ == "medium"@
            },
        }
        &&& texts_view(result.input_modalities@) == seq!["text"@]
    }
}

fn effort(name: &str, description: &str) -> (result: InjectedReasoningEffort)
    ensures
        effort_view(result) == (name@, description@),
{
    InjectedReasoningEffort { reasoning_effort: String::from_str(name), description: String::from_str(description) }
}

impl InjectedModelDescriptor {
    /// The descriptor of the Grok model `model`.
    pub fn grok(model: String) -> (result: Self)
        ensures
            grok_descriptor(model@, &result),
    {
        let model_chars = chars_of(model.as_str());
        let is_flagship = chars_equal(model_chars.as_slice(), chars_of("grok-4.5").as_slice());
        let (supported_reasoning_efforts, default_reasoning_effort) = if is_flagship {
            let efforts = vec![
                effort("low", "Faster responses with lighter reasoning"),
                effort("medium", "Balanced reasoning"),
                effort("high", "Deeper reasoning (default)"),
            ];
            proof {
                assert(efforts_view(efforts@) =~= seq![
                    ("low"@, "Faster responses with lighter reasoning"@),
                    ("medium"@, "Balanced reasoning"@),
                    ("high"@, "Deeper reasoning (default)"@),
                ]);
            }
            (efforts, String::from_str("high"))
        } else {
            match fixed_reasoning_effort(&model) {
                Some(fixed) => {
                    let mut description = String::from_str("Reasoning effort fixed by the ");
                    push_chars(&mut description, model_chars.as_slice());
                    push_chars(&mut description, chars_of(" alias").as_slice());
                    let item = InjectedReasoningEffort { reasoning_effort: fixed.clone(), description };
                    let efforts = vec![item];
                    proof {
                        assert(efforts_view(efforts@) =~= seq![(fixed@, "Reasoning effort fixed by the "@ + model@ + " alias"@)]);
                    }
                    (efforts, fixed)
                },
                None => {
                    let efforts = vec![effort("medium", "Balanced reasoning")];
                    proof {
                        assert(efforts_view(efforts@) =~= seq![("medium"@, "Balanced reasoning"@)]);
                    }
                    (efforts, String::from_str("medium"))
                },
            }
        };
        let input_modalities = if is_flagship {
            let modalities = vec![String::from_str("text"), String::from_str("image")];
            proof {
                assert(texts_view(modalities@) =~= seq!["text"@, "image"@]);
            }
            modalities
        } else {
            let modalities = vec![String::from_str("text")];
            proof {
                assert(texts_view(modalities@) =~= seq!["text"@]);
            }
            modalities
        };
        InjectedModelDescriptor {
            display_name: model.clone(),
            description: String::from_str("Configured xAI model; new tasks only"),
            model,
            supported_reasoning_efforts,
            default_reasoning_effort,
            input_modalities,
        }
    }
}

// ----- checking descriptors -----

/// The first refusal among the first `count` efforts, in order.
pub open spec fn efforts_error(efforts: Seq<InjectedReasoningEffort>, count: int) -> Option<BootstrapError>
    decreases count,
{
    if count <= 0 {
        None
    } else if efforts_error(efforts, count - 1) is Some {
        efforts_error(efforts, count - 1)
    } else if !is_field_text(efforts[count - 1].reasoning_effort@, 32, false) {
        Some(BootstrapError::InvalidEffort)
    } else if !is_field_text(efforts[count - 1].description@, 256, false) {
        Some(BootstrapError::InvalidEffortDescription)
    } else if exists|j: int| 0 <= j < count - 1 && #[trigger] efforts[j].reasoning_effort@ == efforts[count
        - 1].reasoning_effort@ {
        Some(BootstrapError::DuplicateEffort)
    } else {
        None
    }
}

/// The first refusal among the first `count` modalities, in order: one that is not `text`
/// or `image`, or a repeat.
pub open spec fn modalities_error(modalities: Seq<String>, count: int) -> Option<BootstrapError>
    decreases count,
{
    if count <= 0 {
        None
    } else if modalities_error(modalities, count - 1) is Some {
        modalities_error(modalities, count - 1)
    } else if !(modalities[count - 1]@ == "text"@ || modalities[count - 1]@ == "image"@) {
        Some(BootstrapError::InvalidModality)
    } else if exists|j: int| 0 <= j < count - 1 && #[trigger] modalities[j]@ == modalities[count - 1]@ {
        Some(BootstrapError::DuplicateModality)
    } else {
        None
    }
}

/// Why a descriptor is refused, checked in order: its id (a reviewed Grok model), its
/// texts, its 1 to 16 distinct efforts including the default, and its 1 to 8 distinct
/// modalities among text and image.
pub open spec fn descriptor_error(d: &InjectedModelDescriptor) -> Option<BootstrapError> {
    let efforts = d.supported_reasoning_efforts@;
    let modalities = d.input_modalities@;
    if !is_field_text(d.model@, 256, false) {
        Some(BootstrapError::InvalidModelId)
    } else if !starts_with(ascii_lower(d.model@), "grok-"@) {
        Some(BootstrapError::NotGrokModel)
    } else if !is_reviewed_grok_model(d.model@) {
        Some(BootstrapError::UnreviewedModel)
    } else if !is_field_text(d.display_name@, 128, false) {
        Some(BootstrapError::InvalidDisplayName)
    } else if !is_field_text(d.description@, 512, true) {
        Some(BootstrapError::InvalidDescription)
    } else if efforts.len() == 0 || efforts.len() > 16 {
        Some(BootstrapError::EffortCount)
    } else if efforts_error(efforts, efforts.len() as int) is Some {
        efforts_error(efforts, efforts.len() as int)
    } else if !exists|j: int| 0 <= j < efforts.len() && #[trigger] efforts[j].reasoning_effort@
        == d.default_reasoning_effort@ {
        Some(BootstrapError::DefaultEffortMissing)
    } else if modalities.len() == 0 || modalities.len() > 8 {
        Some(BootstrapError::ModalityCount)
    } else {
        modalities_error(modalities, modalities.len() as int)
    }
}

fn text_eq(left: &String, right: &String) -> (result: bool)
    ensures
        result == (left@ == right@),
{
    let l = chars_of(left.as_str());
    let r = chars_of(right.as_str());
    chars_equal(l.as_slice(), r.as_slice())
}

fn text_is(value: &String, expected: &str) -> (result: bool)
    ensures
        result == (value@ == expected@),
{
    let l = chars_of(value.as_str());
    let r = chars_of(expected);
    chars_equal(l.as_slice(), r.as_slice())
}

proof fn lemma_efforts_error_extends(efforts: Seq<InjectedReasoningEffort>, count: int, total: int)
    requires
        0 <= count <= total,
        efforts_error(efforts, count) is Some,
    ensures
        efforts_error(efforts, total) == efforts_error(efforts, count),
    decreases total - count,
{
    if count < total {
        lemma_efforts_error_extends(efforts, count + 1, total);
    }
}

proof fn lemma_modalities_error_extends(modalities: Seq<String>, count: int, total: int)
    requires
        0 <= count <= total,
        modalities_error(modalities, count) is Some,
    ensures
        modalities_error(modalities, total) == modalities_error(modalities, count),
    decreases total - count,
{
    if count < total {
        lemma_modalities_error_extends(modalities, count + 1, total);
    }
}

fn check_efforts(efforts: &Vec<InjectedReasoningEffort>) -> (result: Result<(), BootstrapError>)
    ensures
        match result {
            Ok(()) => efforts_error(efforts@, efforts@.len() as int) is None,
            Err(e) => efforts_error(efforts@, efforts@.len() as int) == Some(e),
        },
{
    for i in 0..efforts.len()
        invariant
            efforts_error(efforts@, i as int) is None,
    {
        let item = &efforts[i];
        if !field_text(&item.reasoning_effort, 32, false) {
            proof {
                lemma_efforts_error_extends(efforts@, i + 1, efforts@.len() as int);
            }
            return Err(BootstrapError::InvalidEffort);
        }
        if !field_text(&item.description, 256, false) {
            proof {
                lemma_efforts_error_extends(efforts@, i + 1, efforts@.len() as int);
            }
            return Err(BootstrapError::InvalidEffortDescription);
        }
        for j in 0..i
            invariant
                i < efforts@.len(),
                efforts_error(efforts@, i as int) is None,
                is_field_text(efforts@[i as int].reasoning_effort@, 32, false),
                is_field_text(efforts@[i as int].description@, 256, false),
                forall|t: int| 0 <= t < j ==> #[trigger] efforts@[t].reasoning_effort@ != efforts@[i as int].reasoning_effort@,
        {
            if text_eq(&efforts[j].reasoning_effort, &efforts[i].reasoning_effort) {
                proof {
                    assert(efforts@[j as int].reasoning_effort@ == efforts@[i as int].reasoning_effort@);
                    lemma_efforts_error_extends(efforts@, i + 1, efforts@.len() as int);
                }
                return Err(BootstrapError::DuplicateEffort);
            }
        }
    }
    Ok(())
}

fn check_modalities(modalities: &Vec<String>) -> (result: Result<(), BootstrapError>)
    ensures
        match result {
            Ok(()) => modalities_error(modalities@, modalities@.len() as int) is None,
            Err(e) => modalities_error(modalities@, modalities@.len() as int) == Some(e),
        },
{
    for i in 0..modalities.len()
        invariant
            modalities_error(modalities@, i as int) is None,
    {
        if !(text_is(&modalities[i], "text") || text_is(&modalities[i], "image")) {
            proof {
                lemma_modalities_error_extends(modalities@, i + 1, modalities@.len() as int);
            }
            return Err(BootstrapError::InvalidModality);
        }
        for j in 0..i
            invariant
                i < modalities@.len(),
                modalities_error(modalities@, i as int) is None,
                modalities@[i as int]@ == "text"@ || modalities@[i as int]@ == "image"@,
                forall|t: int| 0 <= t < j ==> #[trigger] modalities@[t]@ != modalities@[i as int]@,
        {
            if text_eq(&modalities[j], &modalities[i]) {
                proof {
                    assert(modalities@[j as int]@ == modalities@[i as int]@);
                    lemma_modalities_error_extends(modalities@, i + 1, modalities@.len() as int);
                }
                return Err(BootstrapError::DuplicateModality);
            }
        }
    }
    Ok(())
}

fn starts_with_grok(model: &String) -> (result: bool)
    ensures
        result == starts_with(ascii_lower(model@), "grok-"@),
{
    let lower = lower_chars(model);
    let head = chars_of("grok-");
    if lower.len() < head.len() {
        return false;
    }
    let start = crate::text::slice_chars(lower.as_slice(), 0, head.len());
    proof {
        assert(start@ =~= lower@.take(head@.len() as int));
    }
    chars_equal(start.as_slice(), head.as_slice())
}

impl InjectedModelDescriptor {
    /// Checks the descriptor, in the order of `descriptor_error`.
    pub fn validate(&self) -> (result: Result<(), BootstrapError>)
        ensures
            match result {
                Ok(()) => descriptor_error(self) is None,
                Err(e) => descriptor_error(self) == Some(e),
            },
    {
        if !field_text(&self.model, 256, false) {
            return Err(BootstrapError::InvalidModelId);
        }
        if !starts_with_grok(&self.model) {
            return Err(BootstrapError::NotGrokModel);
        }
        if !is_reviewed_grok_model_id(self.model.as_str()) {
            return Err(BootstrapError::UnreviewedModel);
        }
        if !field_text(&self.display_name, 128, false) {
            return Err(BootstrapError::InvalidDisplayName);
        }
        if !field_text(&self.description, 512, true) {
            return Err(BootstrapError::InvalidDescription);
        }
        let efforts = &self.supported_reasoning_efforts;
        if efforts.len() == 0 || efforts.len() > 16 {
            return Err(BootstrapError::EffortCount);
        }
        check_efforts(efforts)?;
        let mut found = false;
        for j in 0..efforts.len()
            invariant
                found == exists|t: int| 0 <= t < j && #[trigger] efforts@[t].reasoning_effort@ == self.default_reasoning_effort@,
        {
            if text_eq(&efforts[j].reasoning_effort, &self.default_reasoning_effort) {
                found = true;
            }
        }
        if !found {
            return Err(BootstrapError::DefaultEffortMissing);
        }
        let modalities = &self.input_modalities;
        if modalities.len() == 0 || modalities.len() > 8 {
            return Err(BootstrapError::ModalityCount);
        }
        check_modalities(modalities)
    }
}

// ----- the model picker and the whole configuration -----

/// The settings that the model picker is rendered with.
#[derive(Debug, Clone, PartialEq, Eq)]
pub struct ModelPickerConfig {
    pub host_adapter: HostAdapterKind,
    pub base_url: String,
    pub action_path: String,
    pub action_path_auto: bool,
    pub sync_native_auth: bool,
    pub sync_native_sessions: bool,
    pub credential_present: bool,
    pub renderer_addons: Vec<RendererAddonSettings>,
    pub renderer_addon_catalog: Vec<RendererAddonCatalogEntry>,
    pub renderer_addon_reports: Vec<RendererAddonReport>,
    pub control_nonce: String,
}

/// The first refusal among the first `count` addon settings: an invalid one, or a
/// repeated id.
pub open spec fn picker_addons_error(addons: Seq<RendererAddonSettings>, count: int) -> Option<BootstrapError>
    decreases count,
{
    if count <= 0 {
        None
    } else if picker_addons_error(addons, count - 1) is Some {
        picker_addons_error(addons, count - 1)
    } else if settings_outcome(&addons[count - 1]) is Err {
        Some(BootstrapError::Addon(settings_outcome(&addons[count - 1])->Err_0))
    } else if exists|j: int| 0 <= j < count - 1 && #[trigger] addons[j].id@ == addons[count - 1].id@ {
        Some(BootstrapError::DuplicateAddon)
    } else {
        None
    }
}

pub open spec fn has_repeated_catalog_id(catalog: Seq<RendererAddonCatalogEntry>) -> bool {
    exists|i: int, j: int| 0 <= i < j < catalog.len() && catalog[i].id@ == catalog[j].id@
}

/// A control nonce: 64 hexadecimal digits.
pub open spec fn is_control_nonce(s: Seq<char>) -> bool {
    s.len() == 64 && forall|i: int| 0 <= i < s.len() ==> is_hex_char(#[trigger] s[i])
}

/// Why a picker configuration is refused, checked in order: its endpoint, the sizes of its
/// addon lists, its addon settings, repeated catalog entries, and its control nonce.
pub open spec fn picker_error(config: &ModelPickerConfig) -> Option<BootstrapError> {
    if provider_base_url_outcome(config.base_url@, config.action_path@) is Err {
        Some(BootstrapError::Endpoint(provider_base_url_outcome(config.base_url@, config.action_path@)->Err_0))
    } else if config.renderer_addons@.len() > 16 || config.renderer_addon_catalog@.len() > 16
        || config.renderer_addon_reports@.len() > 16 {
        Some(BootstrapError::TooManyAddons)
    } else if picker_addons_error(config.renderer_addons@, config.renderer_addons@.len() as int) is Some {
        picker_addons_error(config.renderer_addons@, config.renderer_addons@.len() as int)
    } else if has_repeated_catalog_id(config.renderer_addon_catalog@) {
        Some(BootstrapError::DuplicateCatalogEntry)
    } else if !is_control_nonce(config.control_nonce@) {
        Some(BootstrapError::InvalidControlNonce)
    } else {
        None
    }
}

proof fn lemma_picker_addons_error_extends(addons: Seq<RendererAddonSettings>, count: int, total: int)
    requires
        0 <= count <= total,
        picker_addons_error(addons, count) is Some,
    ensures
        picker_addons_error(addons, total) == picker_addons_error(addons, count),
    decreases total - count,
{
    if count < total {
        lemma_picker_addons_error_extends(addons, count + 1, total);
    }
}

fn check_picker_addons(addons: &Vec<RendererAddonSettings>) -> (result: Result<(), BootstrapError>)
    ensures
        match result {
            Ok(()) => picker_addons_error(addons@, addons@.len() as int) is None,
            Err(e) => picker_addons_error(addons@, addons@.len() as int) == Some(e),
        },
{
    for i in 0..addons.len()
        invariant
            picker_addons_error(addons@, i as int) is None,
    {
        if let Err(e) = addons[i].validate() {
            proof {
                lemma_picker_addons_error_extends(addons@, i + 1, addons@.len() as int);
            }
            return Err(BootstrapError::Addon(e));
        }
        for j in 0..i
            invariant
                i < addons@.len(),
                picker_addons_error(addons@, i as int) is None,
                settings_outcome(&addons@[i as int]) is Ok,
                forall|t: int| 0 <= t < j ==> #[trigger] addons@[t].id@ != addons@[i as int].id@,
        {
            if text_eq(&addons[j].id, &addons[i].id) {
                proof {
                    assert(addons@[j as int].id@ == addons@[i as int].id@);
                    lemma_picker_addons_error_extends(addons@, i + 1, addons@.len() as int);
                }
                return Err(BootstrapError::DuplicateAddon);
            }
        }
    }
    Ok(())
}

fn repeated_catalog_id(catalog: &Vec<RendererAddonCatalogEntry>) -> (result: bool)
    ensures
        result == has_repeated_catalog_id(catalog@),
{
    for j in 0..catalog.len()
        invariant
            forall|a: int, b: int| 0 <= a < b < j ==> catalog@[a].id@ != catalog@[b].id@,
    {
        for i in 0..j
            invariant
                j < catalog@.len(),
                forall|a: int, b: int| 0 <= a < b < j ==> catalog@[a].id@ != catalog@[b].id@,
                forall|a: int| 0 <= a < i ==> catalog@[a].id@ != catalog@[j as int].id@,
        {
            if text_eq(&catalog[i].id, &catalog[j].id) {
                return true;
            }
        }
    }
    false
}

fn valid_control_nonce(nonce: &String) -> (result: bool)
    ensures
        result == is_control_nonce(nonce@),
{
    let chars = chars_of(nonce.as_str());
    if chars.len() != 64 {
        return false;
    }
    for i in 0..chars.len()
        invariant
            chars@ == nonce@,
            chars@.len() == 64,
            forall|t: int| 0 <= t < i ==> is_hex_char(#[trigger] chars@[t]),
    {
        if !char_is_hex(chars[i]) {
            return false;
        }
    }
    true
}

impl ModelPickerConfig {
    /// Checks the picker configuration, in the order of `picker_error`.
    pub fn validate(&self) -> (result: Result<(), BootstrapError>)
        ensures
            match result {
                Ok(()) => picker_error(self) is None,
                Err(e) => picker_error(self) == Some(e),
            },
    {
        if let Err(e) = provider_base_url_for_action_path(self.base_url.as_str(), self.action_path.as_str()) {
            return Err(BootstrapError::Endpoint(e));
        }
        if self.renderer_addons.len() > 16 || self.renderer_addon_catalog.len() > 16 || self.renderer_addon_reports.len()
            > 16 {
            return Err(BootstrapError::TooManyAddons);
        }
        check_picker_addons(&self.renderer_addons)?;
        if repeated_catalog_id(&self.renderer_addon_catalog) {
            return Err(BootstrapError::DuplicateCatalogEntry);
        }
        if !valid_control_nonce(&self.control_nonce) {
            return Err(BootstrapError::InvalidControlNonce);
        }
        Ok(())
    }
}

/// The models to inject and the picker they are offered in.
#[derive(Debug, Clone, PartialEq, Eq)]
pub struct BootstrapConfig {
    pub models: Vec<InjectedModelDescriptor>,
    pub model_picker: ModelPickerConfig,
}

/// The first refusal among the first `count` models: an invalid descriptor, or a repeated
/// model id.
pub open spec fn models_error(models: Seq<InjectedModelDescriptor>, count: int) -> Option<BootstrapError>
    decreases count,
{
    if count <= 0 {
        None
    } else if models_error(models, count - 1) is Some {
        models_error(models, count - 1)
    } else if descriptor_error(&models[count - 1]) is Some {
        descriptor_error(&models[count - 1])
    } else if exists|j: int| 0 <= j < count - 1 && #[trigger] models[j].model@ == models[count - 1].model@ {
        Some(BootstrapError::DuplicateModel)
    } else {
        None
    }
}

/// Why a bootstrap configuration is refused: more than 128 models, a refused or repeated
/// model, or a refused picker.
pub open spec fn bootstrap_error(config: &BootstrapConfig) -> Option<BootstrapError> {
    if config.models@.len() > 128 {
        Some(BootstrapError::TooManyModels)
    } else if models_error(config.models@, config.models@.len() as int) is Some {
        models_error(config.models@, config.models@.len() as int)
    } else {
        picker_error(&config.model_picker)
    }
}

proof fn lemma_models_error_extends(models: Seq<InjectedModelDescriptor>, count: int, total: int)
    requires
        0 <= count <= total,
        models_error(models, count) is Some,
    ensures
        models_error(models, total) == models_error(models, count),
    decreases total - count,
{
    if count < total {
        lemma_models_error_extends(models, count + 1, total);
    }
}

/// Checks a bootstrap configuration before it is rendered, in the order of
/// `bootstrap_error`.
pub fn validate_bootstrap_config(config: &BootstrapConfig) -> (result: Result<(), BootstrapError>)
    ensures
        match result {
            Ok(()) => bootstrap_error(config) is None,
            Err(e) => bootstrap_error(config) == Some(e),
        },
{
    let models = &config.models;
    if models.len() > 128 {
        return Err(BootstrapError::TooManyModels);
    }
    for i in 0..models.len()
        invariant
            models@.len() <= 128,
            models == &config.models,
            models_error(models@, i as int) is None,
    {
        if let Err(e) = models[i].validate() {
            proof {
                lemma_models_error_extends(models@, i + 1, models@.len() as int);
            }
            return Err(e);
        }
        for j in 0..i
            invariant
                i < models@.len(),
                models@.len() <= 128,
                models == &config.models,
                models_error(models@, i as int) is None,
                descriptor_error(&models@[i as int]) is None,
                forall|t: int| 0 <= t < j ==> #[trigger] models@[t].model@ != models@[i as int].model@,
        {
            if text_eq(&models[j].model, &models[i].model) {
                proof {
                    assert(models@[j as int].model@ == models@[i as int].model@);
                    lemma_models_error_extends(models@, i + 1, models@.len() as int);
                }
                return Err(BootstrapError::DuplicateModel);
            }
        }
    }
    config.model_picker.validate()
}

} // verus!
