//! The launcher's settings: the Grok provider endpoint, the models cached from it and
//! selected for injection, renderer addons, and what to synchronise with the native app.

use vstd::prelude::*;

use crate::compatibility::{ascii_lower, to_ascii_lower_char};
use crate::model_discovery::{
    ends_with, is_reviewed_grok_model, is_reviewed_grok_model_id, model_list_outcome, model_list_outcome_of, model_list_url,
    model_list_url_from, parse_uri, parsed_uri, starts_with, uri_view, UriParts, UriView,
    trim_end_char, DiscoveredModel, ModelError,
};
use crate::renderer_addons::{settings_outcome, RendererAddonError, RendererAddonSettings};
use crate::strings::{push_chars, string_from_chars};
use crate::text::{chars_equal, chars_of, slice_chars};

verus! {

pub const SETTINGS_VERSION: u8 = 1;

pub const MAX_SELECTED_MODELS: usize = 128;

pub const MAX_CACHED_MODELS: usize = 4096;

pub const MAX_RENDERER_ADDONS: usize = 16;

/// Why launcher settings, or an endpoint in them, were refused.
#[derive(Debug, Clone, Copy, PartialEq, Eq, Structural)]
pub enum SettingsError {
    UnsupportedVersion,
    CollectionTooLarge,
    Addon(RendererAddonError),
    DuplicateAddon,
    MissingBaseUrl,
    Endpoint(ModelError),
    UnreviewedModel,
    DuplicateCachedModel,
    DuplicateSelectedModel,
    NonGrokSelection,
    SelectionNotCached,
}

pub open spec fn is_action_char(c: char) -> bool {
    ('a' <= c && c <= 'z') || ('A' <= c && c <= 'Z') || ('0' <= c && c <= '9') || c == '/' || c == '-' || c == '_'
        || c == '.' || c == '~'
}

pub open spec fn has_substring(s: Seq<char>, p: Seq<char>) -> bool {
    exists|i: int| 0 <= i && i + p.len() <= s.len() && #[trigger] s.subrange(i, i + p.len()) == p
}

/// A relative Responses-compatible action path: at most 256 characters of ASCII letters,
/// digits, `/`, `-`, `_`, `.` and `~`, starting with `/` and ending in `/responses`, with
/// no empty, `.` or `..` segment. (These characters hold no whitespace, `\`, `?` or `#`.)
pub open spec fn is_responses_action_path(p: Seq<char>) -> bool {
    &&& 0 < p.len() <= 256
    &&& p[0] == '/'
    &&& ends_with(p, "/responses"@)
    &&& forall|i: int| 0 <= i < p.len() ==> is_action_char(#[trigger] p[i])
    &&& !has_substring(p, "//"@)
    &&& !has_substring(p, "/./"@)
    &&& !has_substring(p, "/../"@)
}

fn occurs(text: &[char], needle: &[char]) -> (result: bool)
    requires
        needle@.len() > 0,
    ensures
        result == has_substring(text@, needle@),
{
    let n = text.len();
    let m = needle.len();
    if m > n {
        return false;
    }
    let mut i: usize = 0;
    while i <= n - m
        invariant
            n == text@.len(),
            m == needle@.len(),
            0 < m <= n,
            i <= n - m + 1,
            forall|t: int| 0 <= t < i ==> #[trigger] text@.subrange(t, t + m) != needle@,
        decreases n - m + 1 - i,
    {
        let window = slice_chars(text, i, i + m);
        if chars_equal(window.as_slice(), needle) {
            return true;
        }
        i += 1;
    }
    false
}

/// Whether `action_path` is a relative Responses-compatible action path.
pub fn validate_responses_action_path(action_path: &str) -> (result: bool)
    ensures
        result == is_responses_action_path(action_path@),
{
    let p = chars_of(action_path);
    let n = p.len();
    if n == 0 || n > 256 || p[0] != '/' {
        return false;
    }
    let suffix = chars_of("/responses");
    if n < suffix.len() {
        return false;
    }
    let tail = slice_chars(p.as_slice(), n - suffix.len(), n);
    proof {
        assert(tail@ =~= p@.skip(n - suffix@.len()));
    }
    if !chars_equal(tail.as_slice(), suffix.as_slice()) {
        return false;
    }
    for i in 0..n
        invariant
            n == p@.len(),
            p@ == action_path@,
            forall|t: int| 0 <= t < i ==> is_action_char(#[trigger] p@[t]),
    {
        let c = p[i];
        if !(('a' <= c && c <= 'z') || ('A' <= c && c <= 'Z') || ('0' <= c && c <= '9') || c == '/' || c == '-' || c
            == '_' || c == '.' || c == '~') {
            return false;
        }
    }
    let double = chars_of("//");
    let dot = chars_of("/./");
    let dot_dot = chars_of("/../");
    proof {
        reveal_strlit("//");
        reveal_strlit("/./");
        reveal_strlit("/../");
    }
    !occurs(p.as_slice(), double.as_slice()) && !occurs(p.as_slice(), dot.as_slice()) && !occurs(
        p.as_slice(),
        dot_dot.as_slice(),
    )
}

/// The provider base URL that an action path implies: the base URL without trailing `/`,
/// followed by the action path without its final `/responses`.
pub open spec fn provider_base_url_outcome(base_url: Seq<char>, action_path: Seq<char>) -> Result<Seq<char>, ModelError> {
    provider_base_url_outcome_of(base_url, action_path, parsed_uri(base_url))
}

/// The provider base URL that an action path implies, given how the base URL parses as a
/// URI (`None` when it does not).
pub open spec fn provider_base_url_outcome_of(
    base_url: Seq<char>,
    action_path: Seq<char>,
    parsed: Option<UriView>,
) -> Result<Seq<char>, ModelError> {
    match model_list_outcome_of(base_url, parsed) {
        Err(e) => Err(e),
        Ok(_) => if !is_responses_action_path(action_path) {
            Err(ModelError::InvalidActionPath)
        } else {
            Ok(trim_end_char(base_url, '/') + action_path.take(action_path.len() - "/responses"@.len()))
        },
    }
}

fn trim_end_slash(chars: &[char]) -> (result: Vec<char>)
    ensures
        result@ == trim_end_char(chars@, '/'),
{
    let mut end = chars.len();
    proof {
        assert(chars@.take(chars@.len() as int) =~= chars@);
    }
    while end > 0 && chars[end - 1] == '/'
        invariant
            end <= chars@.len(),
            trim_end_char(chars@, '/') == trim_end_char(chars@.take(end as int), '/'),
        decreases end,
    {
        proof {
            assert(chars@.take(end as int).drop_last() =~= chars@.take(end - 1));
        }
        end -= 1;
    }
    proof {
        assert(chars@.subrange(0, end as int) =~= chars@.take(end as int));
    }
    slice_chars(chars, 0, end)
}

/// The provider base URL that `action_path` implies under `base_url`.
pub fn provider_base_url_for_action_path(base_url: &str, action_path: &str) -> (result: Result<String, ModelError>)
    ensures
        match result {
            Ok(url) => provider_base_url_outcome(base_url@, action_path@) == Ok::<Seq<char>, ModelError>(url@),
            Err(e) => provider_base_url_outcome(base_url@, action_path@) == Err::<Seq<char>, ModelError>(e),
        },
{
    provider_base_url_from(base_url, action_path, parse_uri(base_url))
}

/// The provider base URL that `action_path` implies under `base_url`, given the parts of
/// the base URL's parsed URI (`None` when it does not parse).
pub fn provider_base_url_from(base_url: &str, action_path: &str, parsed: Option<UriParts>) -> (result: Result<
    String,
    ModelError,
>)
    ensures
        match result {
            Ok(url) => provider_base_url_outcome_of(base_url@, action_path@, uri_view(parsed)) == Ok::<Seq<char>, ModelError>(
                url@,
            ),
            Err(e) => provider_base_url_outcome_of(base_url@, action_path@, uri_view(parsed)) == Err::<Seq<char>, ModelError>(
                e,
            ),
        },
{
    model_list_url_from(base_url, parsed)?;
    if !validate_responses_action_path(action_path) {
        return Err(ModelError::InvalidActionPath);
    }
    let base = chars_of(base_url);
    let mut url = string_from_chars(trim_end_slash(base.as_slice()).as_slice());
    let path = chars_of(action_path);
    let suffix = chars_of("/responses");
    let prefix = slice_chars(path.as_slice(), 0, path.len() - suffix.len());
    proof {
        assert(prefix@ =~= path@.take(path@.len() - suffix@.len()));
    }
    push_chars(&mut url, prefix.as_slice());
    Ok(url)
}

/// The launcher's settings.
#[derive(Debug, Clone, PartialEq, Eq)]
pub struct LauncherSettings {
    pub version: u8,
    pub base_url: String,
    pub action_path: String,
    pub action_path_auto: bool,
    pub selected_models: Vec<String>,
    pub cached_models: Vec<DiscoveredModel>,
    pub renderer_addons: Vec<RendererAddonSettings>,
    pub sync_native_auth: bool,
    pub sync_native_sessions: bool,
    pub sync_native_goals: bool,
    pub sync_native_skills: bool,
}

pub open spec fn default_base_url() -> Seq<char> {
    "https://ai.hebox.net/v1"@
}

pub open spec fn default_action_path() -> Seq<char> {
    "/responses"@
}

impl Default for LauncherSettings {
    fn default() -> (result: Self)
        ensures
            result.version == SETTINGS_VERSION,
            result.base_url@ == default_base_url(),
            result.action_path@ == default_action_path(),
            result.action_path_auto,
            result.selected_models@.len() == 0,
            result.cached_models@.len() == 0,
            result.renderer_addons@.len() == 0,
            result.sync_native_auth,
            !result.sync_native_sessions,
            !result.sync_native_goals,
            !result.sync_native_skills,
    {
        LauncherSettings {
            version: SETTINGS_VERSION,
            base_url: String::from_str("https://ai.hebox.net/v1"),
            action_path: String::from_str("/responses"),
            action_path_auto: true,
            selected_models: Vec::new(),
            cached_models: Vec::new(),
            renderer_addons: Vec::new(),
            sync_native_auth: true,
            sync_native_sessions: false,
            sync_native_goals: false,
            sync_native_skills: false,
        }
    }
}

/// The first refusal among the addon settings, in order: an invalid one, or an id that an
/// earlier one repeats.
pub open spec fn addons_error(addons: Seq<RendererAddonSettings>, count: int) -> Option<SettingsError>
    decreases count,
{
    if count <= 0 {
        None
    } else if addons_error(addons, count - 1) is Some {
        addons_error(addons, count - 1)
    } else if settings_outcome(&addons[count - 1]) is Err {
        Some(SettingsError::Addon(settings_outcome(&addons[count - 1])->Err_0))
    } else if exists|j: int| 0 <= j < count - 1 && #[trigger] addons[j].id@ == addons[count - 1].id@ {
        Some(SettingsError::DuplicateAddon)
    } else {
        None
    }
}

/// The first refusal among cached models, in order: one without a reviewed profile, or
/// one that an earlier one repeats.
pub open spec fn cached_error(models: Seq<DiscoveredModel>, count: int) -> Option<SettingsError>
    decreases count,
{
    if count <= 0 {
        None
    } else if cached_error(models, count - 1) is Some {
        cached_error(models, count - 1)
    } else if !is_reviewed_grok_model(models[count - 1].id@) {
        Some(SettingsError::UnreviewedModel)
    } else if exists|j: int| 0 <= j < count - 1 && #[trigger] models[j].id@ == models[count - 1].id@ {
        Some(SettingsError::DuplicateCachedModel)
    } else {
        None
    }
}

pub open spec fn is_cached(models: Seq<DiscoveredModel>, id: Seq<char>) -> bool {
    exists|j: int| 0 <= j < models.len() && #[trigger] models[j].id@ == id
}

/// The first refusal among selected models, in order: a repeat, a model that is not Grok,
/// or one absent from the cache.
pub open spec fn selected_error(selected: Seq<String>, cached: Seq<DiscoveredModel>, count: int) -> Option<SettingsError>
    decreases count,
{
    if count <= 0 {
        None
    } else if selected_error(selected, cached, count - 1) is Some {
        selected_error(selected, cached, count - 1)
    } else if exists|j: int| 0 <= j < count - 1 && #[trigger] selected[j]@ == selected[count - 1]@ {
        Some(SettingsError::DuplicateSelectedModel)
    } else if !starts_with(ascii_lower(selected[count - 1]@), "grok-"@) {
        Some(SettingsError::NonGrokSelection)
    } else if !is_cached(cached, selected[count - 1]@) {
        Some(SettingsError::SelectionNotCached)
    } else {
        None
    }
}

/// Why settings are refused, checked in order: the version, the collection bounds, the
/// addons, the endpoint (settings without a base URL may hold no models), the cached models
/// and the selected models.
pub open spec fn settings_error(settings: &LauncherSettings) -> Option<SettingsError> {
    if settings.version != SETTINGS_VERSION {
        Some(SettingsError::UnsupportedVersion)
    } else if settings.cached_models@.len() > MAX_CACHED_MODELS || settings.selected_models@.len() > MAX_SELECTED_MODELS
        || settings.renderer_addons@.len() > MAX_RENDERER_ADDONS {
        Some(SettingsError::CollectionTooLarge)
    } else if addons_error(settings.renderer_addons@, settings.renderer_addons@.len() as int) is Some {
        addons_error(settings.renderer_addons@, settings.renderer_addons@.len() as int)
    } else if settings.base_url@.len() == 0 {
        if settings.selected_models@.len() > 0 || settings.cached_models@.len() > 0 {
            Some(SettingsError::MissingBaseUrl)
        } else {
            None
        }
    } else if model_list_outcome(settings.base_url@) is Err {
        Some(SettingsError::Endpoint(model_list_outcome(settings.base_url@)->Err_0))
    } else if provider_base_url_outcome(settings.base_url@, settings.action_path@) is Err {
        Some(SettingsError::Endpoint(provider_base_url_outcome(settings.base_url@, settings.action_path@)->Err_0))
    } else if cached_error(settings.cached_models@, settings.cached_models@.len() as int) is Some {
        cached_error(settings.cached_models@, settings.cached_models@.len() as int)
    } else {
        selected_error(settings.selected_models@, settings.cached_models@, settings.selected_models@.len() as int)
    }
}

fn text_eq(left: &String, right: &String) -> (result: bool)
    ensures
        result == (left@ == right@),
{
    let l = chars_of(left.as_str());
    let r = chars_of(right.as_str());
    chars_equal(l.as_slice(), r.as_slice())
}

proof fn lemma_addons_error_extends(addons: Seq<RendererAddonSettings>, count: int, total: int)
    requires
        0 <= count <= total,
        addons_error(addons, count) is Some,
    ensures
        addons_error(addons, total) == addons_error(addons, count),
    decreases total - count,
{
    if count < total {
        lemma_addons_error_extends(addons, count + 1, total);
    }
}

proof fn lemma_cached_error_extends(models: Seq<DiscoveredModel>, count: int, total: int)
    requires
        0 <= count <= total,
        cached_error(models, count) is Some,
    ensures
        cached_error(models, total) == cached_error(models, count),
    decreases total - count,
{
    if count < total {
        lemma_cached_error_extends(models, count + 1, total);
    }
}

proof fn lemma_selected_error_extends(selected: Seq<String>, cached: Seq<DiscoveredModel>, count: int, total: int)
    requires
        0 <= count <= total,
        selected_error(selected, cached, count) is Some,
    ensures
        selected_error(selected, cached, total) == selected_error(selected, cached, count),
    decreases total - count,
{
    if count < total {
        lemma_selected_error_extends(selected, cached, count + 1, total);
    }
}

fn check_addons(addons: &Vec<RendererAddonSettings>) -> (result: Result<(), SettingsError>)
    ensures
        match result {
            Ok(()) => addons_error(addons@, addons@.len() as int) is None,
            Err(e) => addons_error(addons@, addons@.len() as int) == Some(e),
        },
{
    for i in 0..addons.len()
        invariant
            addons_error(addons@, i as int) is None,
    {
        if let Err(e) = addons[i].validate() {
            proof {
                lemma_addons_error_extends(addons@, i + 1, addons@.len() as int);
            }
            return Err(SettingsError::Addon(e));
        }
        for j in 0..i
            invariant
                i < addons@.len(),
                addons_error(addons@, i as int) is None,
                settings_outcome(&addons@[i as int]) is Ok,
                forall|t: int| 0 <= t < j ==> #[trigger] addons@[t].id@ != addons@[i as int].id@,
        {
            if text_eq(&addons[j].id, &addons[i].id) {
                proof {
                    assert(addons@[j as int].id@ == addons@[i as int].id@);
                    lemma_addons_error_extends(addons@, i + 1, addons@.len() as int);
                }
                return Err(SettingsError::DuplicateAddon);
            }
        }
    }
    Ok(())
}

fn check_cached(models: &Vec<DiscoveredModel>) -> (result: Result<(), SettingsError>)
    ensures
        match result {
            Ok(()) => cached_error(models@, models@.len() as int) is None,
            Err(e) => cached_error(models@, models@.len() as int) == Some(e),
        },
{
    for i in 0..models.len()
        invariant
            cached_error(models@, i as int) is None,
    {
        if !is_reviewed_grok_model_id(models[i].id.as_str()) {
            proof {
                lemma_cached_error_extends(models@, i + 1, models@.len() as int);
            }
            return Err(SettingsError::UnreviewedModel);
        }
        for j in 0..i
            invariant
                i < models@.len(),
                cached_error(models@, i as int) is None,
                is_reviewed_grok_model(models@[i as int].id@),
                forall|t: int| 0 <= t < j ==> #[trigger] models@[t].id@ != models@[i as int].id@,
        {
            if text_eq(&models[j].id, &models[i].id) {
                proof {
                    assert(models@[j as int].id@ == models@[i as int].id@);
                    lemma_cached_error_extends(models@, i + 1, models@.len() as int);
                }
                return Err(SettingsError::DuplicateCachedModel);
            }
        }
    }
    Ok(())
}

fn starts_with_grok(model: &String) -> (result: bool)
    ensures
        result == starts_with(ascii_lower(model@), "grok-"@),
{
    let chars = chars_of(model.as_str());
    let head = chars_of("grok-");
    proof {
        reveal_strlit("grok-");
    }
    if chars.len() < head.len() {
        return false;
    }
    let mut lowered: Vec<char> = Vec::new();
    for i in 0..head.len()
        invariant
            head@.len() <= chars@.len(),
            lowered@ == ascii_lower(chars@).take(i as int),
    {
        proof {
            assert(ascii_lower(chars@).take(i + 1) =~= ascii_lower(chars@).take(i as int).push(
                ascii_lower(chars@)[i as int],
            ));
        }
        lowered.push(to_ascii_lower_char(chars[i]));
    }
    chars_equal(lowered.as_slice(), head.as_slice())
}

fn cached_contains(models: &Vec<DiscoveredModel>, id: &String) -> (result: bool)
    ensures
        result == is_cached(models@, id@),
{
    for j in 0..models.len()
        invariant
            forall|t: int| 0 <= t < j ==> #[trigger] models@[t].id@ != id@,
    {
        if text_eq(&models[j].id, id) {
            return true;
        }
    }
    false
}

fn check_selected(selected: &Vec<String>, cached: &Vec<DiscoveredModel>) -> (result: Result<(), SettingsError>)
    ensures
        match result {
            Ok(()) => selected_error(selected@, cached@, selected@.len() as int) is None,
            Err(e) => selected_error(selected@, cached@, selected@.len() as int) == Some(e),
        },
{
    for i in 0..selected.len()
        invariant
            selected_error(selected@, cached@, i as int) is None,
    {
        for j in 0..i
            invariant
                i < selected@.len(),
                selected_error(selected@, cached@, i as int) is None,
                forall|t: int| 0 <= t < j ==> #[trigger] selected@[t]@ != selected@[i as int]@,
        {
            if text_eq(&selected[j], &selected[i]) {
                proof {
                    assert(selected@[j as int]@ == selected@[i as int]@);
                    lemma_selected_error_extends(selected@, cached@, i + 1, selected@.len() as int);
                }
                return Err(SettingsError::DuplicateSelectedModel);
            }
        }
        if !starts_with_grok(&selected[i]) {
            proof {
                lemma_selected_error_extends(selected@, cached@, i + 1, selected@.len() as int);
            }
            return Err(SettingsError::NonGrokSelection);
        }
        if !cached_contains(cached, &selected[i]) {
            proof {
                lemma_selected_error_extends(selected@, cached@, i + 1, selected@.len() as int);
            }
            return Err(SettingsError::SelectionNotCached);
        }
    }
    Ok(())
}

impl LauncherSettings {
    /// Checks the settings, in the order of `settings_error`.
    pub fn validate(&self) -> (result: Result<(), SettingsError>)
        ensures
            match result {
                Ok(()) => settings_error(self) is None,
                Err(e) => settings_error(self) == Some(e),
            },
    {
        if self.version != SETTINGS_VERSION {
            return Err(SettingsError::UnsupportedVersion);
        }
        if self.cached_models.len() > MAX_CACHED_MODELS || self.selected_models.len() > MAX_SELECTED_MODELS
            || self.renderer_addons.len() > MAX_RENDERER_ADDONS {
            return Err(SettingsError::CollectionTooLarge);
        }
        check_addons(&self.renderer_addons)?;
        if chars_of(self.base_url.as_str()).len() == 0 {
            if self.selected_models.len() > 0 || self.cached_models.len() > 0 {
                return Err(SettingsError::MissingBaseUrl);
            }
            return Ok(());
        }
        if let Err(e) = model_list_url(self.base_url.as_str()) {
            return Err(SettingsError::Endpoint(e));
        }
        if let Err(e) = provider_base_url_for_action_path(self.base_url.as_str(), self.action_path.as_str()) {
            return Err(SettingsError::Endpoint(e));
        }
        check_cached(&self.cached_models)?;
        check_selected(&self.selected_models, &self.cached_models)
    }
}

/// The settings that control the launcher: the stored ones when the launcher manages them,
/// else the given fallback; either way checked.
pub fn resolve_launcher_control_settings(
    stored: LauncherSettings,
    fallback: LauncherSettings,
    launcher_managed: bool,
) -> (result: Result<LauncherSettings, SettingsError>)
    ensures
        launcher_managed ==> match result {
            Ok(settings) => settings_error(&stored) is None && settings == stored,
            Err(e) => settings_error(&stored) == Some(e),
        },
        !launcher_managed ==> match result {
            Ok(settings) => settings_error(&fallback) is None && settings == fallback,
            Err(e) => settings_error(&fallback) == Some(e),
        },
{
    let chosen = if launcher_managed {
        stored
    } else {
        fallback
    };
    chosen.validate()?;
    Ok(chosen)
}

pub open spec fn addon_settings_view(addon: RendererAddonSettings) -> (Seq<char>, bool, Seq<char>) {
    (addon.id@, addon.enabled, addon.source_root@)
}

pub open spec fn cached_view(model: DiscoveredModel) -> (Seq<char>, Option<Seq<char>>) {
    (model.id@, crate::model_discovery::opt_text(model.owned_by))
}

/// Two settings hold the same values.
pub open spec fn same_settings(a: &LauncherSettings, b: &LauncherSettings) -> bool {
    &&& a.version == b.version
    &&& a.base_url@ == b.base_url@
    &&& a.action_path@ == b.action_path@
    &&& a.action_path_auto == b.action_path_auto
    &&& a.selected_models@.map_values(|m: String| m@) == b.selected_models@.map_values(|m: String| m@)
    &&& a.cached_models@.map_values(|m: DiscoveredModel| cached_view(m)) == b.cached_models@.map_values(
        |m: DiscoveredModel| cached_view(m),
    )
    &&& a.renderer_addons@.map_values(|r: RendererAddonSettings| addon_settings_view(r)) == b.renderer_addons@.map_values(
        |r: RendererAddonSettings| addon_settings_view(r),
    )
    &&& a.sync_native_auth == b.sync_native_auth
    &&& a.sync_native_sessions == b.sync_native_sessions
    &&& a.sync_native_goals == b.sync_native_goals
    &&& a.sync_native_skills == b.sync_native_skills
}

fn copy_texts(values: &Vec<String>) -> (result: Vec<String>)
    ensures
        result@.map_values(|m: String| m@) == values@.map_values(|m: String| m@),
{
    let mut out: Vec<String> = Vec::new();
    for i in 0..values.len()
        invariant
            out@.map_values(|m: String| m@) == values@.take(i as int).map_values(|m: String| m@),
    {
        let ghost before = out@;
        let copy = values[i].clone();
        out.push(copy);
        proof {
            assert(values@.take(i + 1) =~= values@.take(i as int).push(values@[i as int]));
            assert(out@ =~= before.push(copy));
            assert(out@.map_values(|m: String| m@) =~= before.map_values(|m: String| m@).push(copy@));
            assert(out@.map_values(|m: String| m@) =~= values@.take(i + 1).map_values(|m: String| m@));
        }
    }
    proof {
        assert(values@.take(values@.len() as int) =~= values@);
    }
    out
}

fn copy_models(values: &Vec<DiscoveredModel>) -> (result: Vec<DiscoveredModel>)
    ensures
        result@.map_values(|m: DiscoveredModel| cached_view(m)) == values@.map_values(|m: DiscoveredModel| cached_view(m)),
{
    let mut out: Vec<DiscoveredModel> = Vec::new();
    for i in 0..values.len()
        invariant
            out@.map_values(|m: DiscoveredModel| cached_view(m)) == values@.take(i as int).map_values(
                |m: DiscoveredModel| cached_view(m),
            ),
    {
        let model = &values[i];
        let owned_by = match &model.owned_by {
            Some(owner) => Some(owner.clone()),
            None => None,
        };
        let ghost before = out@;
        let copy = DiscoveredModel { id: model.id.clone(), owned_by };
        out.push(copy);
        proof {
            assert(values@.take(i + 1) =~= values@.take(i as int).push(values@[i as int]));
            assert(out@.map_values(|m: DiscoveredModel| cached_view(m)) =~= before.map_values(|m: DiscoveredModel| cached_view(m)).push(cached_view(copy)));
            assert(out@.map_values(|m: DiscoveredModel| cached_view(m)) =~= values@.take(i + 1).map_values(
                |m: DiscoveredModel| cached_view(m),
            ));
        }
    }
    proof {
        assert(values@.take(values@.len() as int) =~= values@);
    }
    out
}

fn copy_addons(values: &Vec<RendererAddonSettings>) -> (result: Vec<RendererAddonSettings>)
    ensures
        result@.map_values(|r: RendererAddonSettings| addon_settings_view(r)) == values@.map_values(
            |r: RendererAddonSettings| addon_settings_view(r),
        ),
{
    let mut out: Vec<RendererAddonSettings> = Vec::new();
    for i in 0..values.len()
        invariant
            out@.map_values(|r: RendererAddonSettings| addon_settings_view(r)) == values@.take(i as int).map_values(
                |r: RendererAddonSettings| addon_settings_view(r),
            ),
    {
        let addon = &values[i];
        let ghost before = out@;
        let copy = RendererAddonSettings { id: addon.id.clone(), enabled: addon.enabled, source_root: addon.source_root.clone() };
        out.push(copy);
        proof {
            assert(values@.take(i + 1) =~= values@.take(i as int).push(values@[i as int]));
            assert(out@.map_values(|r: RendererAddonSettings| addon_settings_view(r)) =~= before.map_values(|r: RendererAddonSettings| addon_settings_view(r)).push(addon_settings_view(copy)));
            assert(out@.map_values(|r: RendererAddonSettings| addon_settings_view(r)) =~= values@.take(i + 1).map_values(
                |r: RendererAddonSettings| addon_settings_view(r),
            ));
        }
    }
    proof {
        assert(values@.take(values@.len() as int) =~= values@);
    }
    out
}

impl LauncherSettings {
    /// A copy of the settings.
    pub fn duplicate(&self) -> (result: Self)
        ensures
            same_settings(&result, self),
    {
        LauncherSettings {
            version: self.version,
            base_url: self.base_url.clone(),
            action_path: self.action_path.clone(),
            action_path_auto: self.action_path_auto,
            selected_models: copy_texts(&self.selected_models),
            cached_models: copy_models(&self.cached_models),
            renderer_addons: copy_addons(&self.renderer_addons),
            sync_native_auth: self.sync_native_auth,
            sync_native_sessions: self.sync_native_sessions,
            sync_native_goals: self.sync_native_goals,
            sync_native_skills: self.sync_native_skills,
        }
    }
}


proof fn lemma_addons_clean(addons: Seq<RendererAddonSettings>, n: int)
    requires
        0 <= n <= addons.len(),
        addons_error(addons, n) is None,
    ensures
        forall|i: int| 0 <= i < n ==> settings_outcome(&#[trigger] addons[i]) is Ok,
        forall|i: int, j: int| 0 <= i < j < n ==> #[trigger] addons[i].id@ != #[trigger] addons[j].id@,
    decreases n,
{
    if n > 0 {
        lemma_addons_clean(addons, n - 1);
        assert forall|i: int, j: int| 0 <= i < j < n implies #[trigger] addons[i].id@ != #[trigger] addons[j].id@ by {
            if j == n - 1 && addons[i].id@ == addons[j].id@ {
                assert(0 <= i < n - 1 && addons[i].id@ == addons[n - 1].id@);
            }
        }
    }
}

proof fn lemma_cached_clean(models: Seq<DiscoveredModel>, n: int)
    requires
        0 <= n <= models.len(),
        cached_error(models, n) is None,
    ensures
        forall|i: int| 0 <= i < n ==> is_reviewed_grok_model((#[trigger] models[i]).id@),
        forall|i: int, j: int| 0 <= i < j < n ==> #[trigger] models[i].id@ != #[trigger] models[j].id@,
    decreases n,
{
    if n > 0 {
        lemma_cached_clean(models, n - 1);
        assert forall|i: int, j: int| 0 <= i < j < n implies #[trigger] models[i].id@ != #[trigger] models[j].id@ by {
            if j == n - 1 && models[i].id@ == models[j].id@ {
                assert(0 <= i < n - 1 && models[i].id@ == models[n - 1].id@);
            }
        }
    }
}

proof fn lemma_selected_clean(selected: Seq<String>, cached: Seq<DiscoveredModel>, n: int)
    requires
        0 <= n <= selected.len(),
        selected_error(selected, cached, n) is None,
    ensures
        forall|i: int|
            0 <= i < n ==> starts_with(ascii_lower((#[trigger] selected[i])@), "grok-"@) && is_cached(cached, selected[i]@),
        forall|i: int, j: int| 0 <= i < j < n ==> (#[trigger] selected[i])@ != (#[trigger] selected[j])@,
    decreases n,
{
    if n > 0 {
        lemma_selected_clean(selected, cached, n - 1);
        assert forall|i: int, j: int| 0 <= i < j < n implies (#[trigger] selected[i])@ != (#[trigger] selected[j])@ by {
            if j == n - 1 && selected[i]@ == selected[j]@ {
                assert(0 <= i < n - 1 && selected[i]@ == selected[n - 1]@);
            }
        }
    }
}

/// What valid settings hold: version 1 and bounded collections; renderer addons that are
/// each valid, with distinct ids; no models without a base URL; and with one, a usable
/// endpoint, cached models that are reviewed and distinct, and distinct Grok selections
/// taken from the cache.
pub proof fn lemma_valid_settings(settings: &LauncherSettings)
    requires
        settings_error(settings) is None,
    ensures
        settings.version == SETTINGS_VERSION,
        settings.cached_models@.len() <= MAX_CACHED_MODELS,
        settings.selected_models@.len() <= MAX_SELECTED_MODELS,
        settings.renderer_addons@.len() <= MAX_RENDERER_ADDONS,
        forall|i: int|
            0 <= i < settings.renderer_addons@.len() ==> settings_outcome(&#[trigger] settings.renderer_addons@[i]) is Ok,
        forall|i: int, j: int|
            0 <= i < j < settings.renderer_addons@.len() ==> #[trigger] settings.renderer_addons@[i].id@
                != #[trigger] settings.renderer_addons@[j].id@,
        settings.base_url@.len() == 0 ==> settings.selected_models@.len() == 0 && settings.cached_models@.len() == 0,
        settings.base_url@.len() > 0 ==> {
            &&& model_list_outcome(settings.base_url@) is Ok
            &&& forall|i: int|
                0 <= i < settings.cached_models@.len() ==> is_reviewed_grok_model(
                    (#[trigger] settings.cached_models@[i]).id@,
                )
            &&& forall|i: int, j: int|
                0 <= i < j < settings.cached_models@.len() ==> #[trigger] settings.cached_models@[i].id@
                    != #[trigger] settings.cached_models@[j].id@
            &&& forall|i: int|
                0 <= i < settings.selected_models@.len() ==> starts_with(
                    ascii_lower((#[trigger] settings.selected_models@[i])@),
                    "grok-"@,
                ) && is_cached(settings.cached_models@, settings.selected_models@[i]@)
            &&& forall|i: int, j: int|
                0 <= i < j < settings.selected_models@.len() ==> (#[trigger] settings.selected_models@[i])@
                    != (#[trigger] settings.selected_models@[j])@
        },
{
    lemma_addons_clean(settings.renderer_addons@, settings.renderer_addons@.len() as int);
    if settings.base_url@.len() > 0 {
        lemma_cached_clean(settings.cached_models@, settings.cached_models@.len() as int);
        lemma_selected_clean(
            settings.selected_models@,
            settings.cached_models@,
            settings.selected_models@.len() as int,
        );
    }
}

} // verus!
