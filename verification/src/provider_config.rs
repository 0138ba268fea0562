//! The official configuration file's TOML: registering the native Grok provider with the
//! shell environment guard that keeps its credential out of tool processes, removing it,
//! and pointing the configuration at the native model catalog.

use vstd::prelude::*;

use crate::launcher_settings::{provider_base_url_for_action_path, provider_base_url_outcome};
use crate::native_provider::{
    excluded, plan_shell_environment_guard, provider_error, same_name, set_refusal, shell_guard_outcome,
    GrokNativeProviderConfig, PolicyExcludeField, PolicySetField, ProviderError,
};
use crate::text::{is_blank, is_blank_text};
use crate::toml_doc::{
    apart, empty_toml, is_prefix, parse_toml, path_view, reachable, render_toml, toml_at, toml_keys, toml_kind,
    toml_parse, toml_push_text, toml_put, toml_remove, toml_rendering, toml_texts, view_keys, TomlKind, TomlView,
    TomlWrite,
};

verus! {

/// What the configuration `existing` holds at `path` before it is edited: nothing when it
/// is blank, else what its parsed document holds there.
pub open spec fn initial_at(existing: Seq<char>, path: Seq<Seq<char>>) -> TomlView {
    if is_blank(existing) {
        TomlView::Absent
    } else {
        match toml_parse(existing) {
            Some(doc) => toml_at(doc, path),
            None => TomlView::Absent,
        }
    }
}

/// The configuration is not blank and not TOML.
pub open spec fn config_refused(existing: Seq<char>) -> bool {
    !is_blank(existing) && toml_parse(existing) is None
}

pub open spec fn absent_or_table(view: TomlView) -> bool {
    view is Absent || view is Table
}

/// The shell environment guard over what the policy's `set` and `exclude` hold: refuse a
/// `set` that is not a table or that names the credential variable in any ASCII case; keep
/// an `exclude` list that names it already (`false`); refuse one that is not a list of
/// strings; else add the variable (`true`).
pub open spec fn guard_outcome(set: TomlView, exclude: TomlView, key: Seq<char>) -> Result<bool, ProviderError> {
    if !(set is Absent || set is Table || set is InlineTable) {
        Err(ProviderError::SetNotTable)
    } else if exists|i: int| 0 <= i < view_keys(set).len() && same_name(#[trigger] view_keys(set)[i], key) {
        Err(ProviderError::SetReintroducesSecret)
    } else {
        match exclude {
            TomlView::Absent => Ok(true),
            TomlView::Array(entries) => if exists|i: int|
                0 <= i < entries.len() && #[trigger] entries[i] is Some && same_name(entries[i]->0, key) {
                Ok(false)
            } else if exists|i: int| 0 <= i < entries.len() && #[trigger] entries[i] is None {
                Err(ProviderError::ExcludeNotStrings)
            } else {
                Ok(true)
            },
            _ => Err(ProviderError::ExcludeNotArray),
        }
    }
}

pub open spec fn providers_path() -> Seq<Seq<char>> {
    seq!["model_providers"@]
}

pub open spec fn provider_path() -> Seq<Seq<char>> {
    seq!["model_providers"@, "grok_native"@]
}

pub open spec fn provider_key_path(key: Seq<char>) -> Seq<Seq<char>> {
    seq!["model_providers"@, "grok_native"@, key]
}

pub open spec fn policy_path() -> Seq<Seq<char>> {
    seq!["shell_environment_policy"@]
}

pub open spec fn policy_key_path(key: Seq<char>) -> Seq<Seq<char>> {
    seq!["shell_environment_policy"@, key]
}

/// What the policy's `set` and `exclude` hold before the edit: nothing when there is no
/// policy table yet.
pub open spec fn initial_policy_field(existing: Seq<char>, key: Seq<char>) -> TomlView {
    if initial_at(existing, policy_path()) is Table {
        initial_at(existing, policy_key_path(key))
    } else {
        TomlView::Absent
    }
}

/// Why registering `provider` over the configuration `existing` is refused, if it is: the
/// provider entry itself, a configuration that is not TOML, a `model_providers`, a
/// `model_providers.grok_native` or a `shell_environment_policy` that is not a table, then
/// the shell environment guard.
pub open spec fn provider_config_refusal(existing: Seq<char>, provider: GrokNativeProviderConfig) -> Option<ProviderError> {
    match provider_error(&provider) {
        Some(e) => Some(e),
        None => if config_refused(existing) {
            Some(ProviderError::InvalidConfig)
        } else if !absent_or_table(initial_at(existing, providers_path())) {
            Some(ProviderError::ProvidersNotTable)
        } else if initial_at(existing, providers_path()) is Table && !absent_or_table(
            initial_at(existing, provider_path()),
        ) {
            Some(ProviderError::ProviderNotTable)
        } else if !absent_or_table(initial_at(existing, policy_path())) {
            Some(ProviderError::PolicyNotTable)
        } else {
            match guard_outcome(
                initial_policy_field(existing, "set"@),
                initial_policy_field(existing, "exclude"@),
                provider.env_key@,
            ) {
                Err(e) => Some(e),
                Ok(_) => None,
            }
        },
    }
}

/// The excluded names after the guard: those there were, and the credential variable when
/// the guard adds it.
pub open spec fn guarded_excludes(existing: Seq<char>, key: Seq<char>) -> Seq<Option<Seq<char>>> {
    let prior = match initial_policy_field(existing, "exclude"@) {
        TomlView::Array(entries) => entries,
        _ => Seq::empty(),
    };
    match guard_outcome(initial_policy_field(existing, "set"@), initial_policy_field(existing, "exclude"@), key) {
        Ok(true) => prior.push(Some(key)),
        _ => prior,
    }
}

/// `doc` registers `provider` over the configuration `existing`: the six keys of
/// `model_providers.grok_native`, the guard's `ignore_default_excludes` and `exclude`, and
/// every top-level entry other than `model_providers` and `shell_environment_policy` kept.
pub open spec fn provider_config_written(
    doc: toml_edit::DocumentMut,
    existing: Seq<char>,
    provider: GrokNativeProviderConfig,
) -> bool {
    &&& toml_at(doc, provider_key_path("name"@)) == TomlView::Text("Grok in native ChatGPT/Codex"@)
    &&& toml_at(doc, provider_key_path("base_url"@)) == TomlView::Text(
        provider_base_url_outcome(provider.base_url@, provider.action_path@)->Ok_0,
    )
    &&& toml_at(doc, provider_key_path("env_key"@)) == TomlView::Text(provider.env_key@)
    &&& toml_at(doc, provider_key_path("wire_api"@)) == TomlView::Text("responses"@)
    &&& toml_at(doc, provider_key_path("requires_openai_auth"@)) == TomlView::Bool(false)
    &&& toml_at(doc, provider_key_path("supports_websockets"@)) == TomlView::Bool(provider.supports_websockets)
    &&& toml_at(doc, policy_key_path("ignore_default_excludes"@)) == TomlView::Bool(false)
    &&& toml_at(doc, policy_key_path("exclude"@)) == TomlView::Array(guarded_excludes(existing, provider.env_key@))
    &&& forall|q: Seq<Seq<char>>|
        q.len() >= 1 && q[0] != "model_providers"@ && q[0] != "shell_environment_policy"@ ==> #[trigger] toml_at(doc, q)
            == initial_at(existing, q)
}

proof fn lemma_apart_at(p: Seq<Seq<char>>, q: Seq<Seq<char>>, i: int)
    requires
        0 <= i < p.len(),
        i < q.len(),
        p[i] != q[i],
    ensures
        apart(p, q),
{
    if is_prefix(p, q) {
        assert(q.take(p.len() as int)[i] == q[i]);
    }
    if is_prefix(q, p) {
        assert(p.take(q.len() as int)[i] == p[i]);
    }
}

fn path1(a: &'static str) -> (path: Vec<&'static str>)
    ensures
        path_view(path@) == seq![a@],
        path@.len() == 1,
{
    let mut path: Vec<&'static str> = Vec::new();
    path.push(a);
    proof {
        assert(path_view(path@) =~= seq![a@]);
    }
    path
}

fn path2(a: &'static str, b: &'static str) -> (path: Vec<&'static str>)
    ensures
        path_view(path@) == seq![a@, b@],
        path@.len() == 2,
        seq![a@, b@].take(1) == seq![a@],
        seq![a@, b@].drop_last() == seq![a@],
{
    let mut path: Vec<&'static str> = Vec::new();
    path.push(a);
    path.push(b);
    proof {
        assert(path_view(path@) =~= seq![a@, b@]);
        assert(seq![a@, b@].take(1) =~= seq![a@]);
        assert(seq![a@, b@].drop_last() =~= seq![a@]);
    }
    path
}

fn path3(a: &'static str, b: &'static str, c: &'static str) -> (path: Vec<&'static str>)
    ensures
        path_view(path@) == seq![a@, b@, c@],
        path@.len() == 3,
        seq![a@, b@, c@].take(1) == seq![a@],
        seq![a@, b@, c@].take(2) == seq![a@, b@],
{
    let mut path: Vec<&'static str> = Vec::new();
    path.push(a);
    path.push(b);
    path.push(c);
    proof {
        assert(path_view(path@) =~= seq![a@, b@, c@]);
        assert(seq![a@, b@, c@].take(1) =~= seq![a@]);
        assert(seq![a@, b@, c@].take(2) =~= seq![a@, b@]);
    }
    path
}

fn put_at(doc: &mut toml_edit::DocumentMut, path: &[&str], value: TomlWrite)
    requires
        path@.len() >= 1,
        reachable(*old(doc), path_view(path@)),
    ensures
        toml_at(*final(doc), path_view(path@)) == crate::toml_doc::written(value),
        forall|q: Seq<Seq<char>>|
            q.len() >= 1 && apart(q, path_view(path@)) ==> #[trigger] toml_at(*final(doc), q) == toml_at(*old(doc), q),
        forall|q: Seq<Seq<char>>|
            q.len() >= 1 && q[0] != path@[0]@ ==> #[trigger] toml_at(*final(doc), q) == toml_at(*old(doc), q),
        forall|q: Seq<Seq<char>>|
            is_prefix(path_view(path@), q) && q.len() > path@.len() ==> #[trigger] toml_at(*final(doc), q) is Absent,
        forall|i: int|
            1 <= i < path@.len() ==> #[trigger] toml_at(*final(doc), path_view(path@).take(i)) is Table,
{
    toml_put(doc, path, value);
    proof {
        assert forall|q: Seq<Seq<char>>| q.len() >= 1 && q[0] != path@[0]@ implies #[trigger] toml_at(*doc, q) == toml_at(
            *old(doc),
            q,
        ) by {
            lemma_apart_at(q, path_view(path@), 0);
        }
    }
}

/// Registers `provider` in the configuration `existing`: the table
/// `model_providers.grok_native` with its name, base URL, credential variable, wire API and
/// flags, and the shell environment guard; refused as `provider_config_refusal` states, else
/// the rendered document.
pub fn render_grok_native_provider_config(existing: &str, provider: &GrokNativeProviderConfig) -> (result: Result<
    String,
    ProviderError,
>)
    ensures
        match provider_config_refusal(existing@, *provider) {
            Some(e) => result == Err::<String, ProviderError>(e),
            None => result is Ok,
        },
        result matches Ok(text) ==> exists|doc: toml_edit::DocumentMut|
            toml_rendering(doc) == text@ && #[trigger] provider_config_written(doc, existing@, *provider),
{
    if let Err(e) = provider.validate() {
        return Err(e);
    }
    let url = match provider_base_url_for_action_path(provider.base_url.as_str(), provider.action_path.as_str()) {
        Ok(url) => url,
        Err(e) => return Err(ProviderError::Endpoint(e)),
    };
    let mut doc = if is_blank_text(existing) {
        empty_toml()
    } else {
        match parse_toml(existing) {
            Some(doc) => doc,
            None => return Err(ProviderError::InvalidConfig),
        }
    };
    proof {
        reveal_strlit("model_providers");
        reveal_strlit("shell_environment_policy");
        assert("model_providers"@.len() != "shell_environment_policy"@.len());
        assert forall|q: Seq<Seq<char>>| q.len() >= 1 implies #[trigger] toml_at(doc, q) == initial_at(existing@, q) by {}
    }
    let ghost start = doc;
    let providers = path1("model_providers");
    match toml_kind(&doc, providers.as_slice()) {
        TomlKind::Absent => put_at(&mut doc, providers.as_slice(), TomlWrite::EmptyTable),
        TomlKind::Table => {},
        _ => return Err(ProviderError::ProvidersNotTable),
    }
    let entry = path2("model_providers", "grok_native");
    match toml_kind(&doc, entry.as_slice()) {
        TomlKind::Absent => put_at(&mut doc, entry.as_slice(), TomlWrite::EmptyTable),
        TomlKind::Table => {},
        _ => return Err(ProviderError::ProviderNotTable),
    }
    let name = path3("model_providers", "grok_native", "name");
    put_at(&mut doc, name.as_slice(), TomlWrite::Text(String::from_str("Grok in native ChatGPT/Codex")));
    let base_url = path3("model_providers", "grok_native", "base_url");
    put_at(&mut doc, base_url.as_slice(), TomlWrite::Text(url));
    let env_key = path3("model_providers", "grok_native", "env_key");
    put_at(&mut doc, env_key.as_slice(), TomlWrite::Text(provider.env_key.clone()));
    let wire_api = path3("model_providers", "grok_native", "wire_api");
    put_at(&mut doc, wire_api.as_slice(), TomlWrite::Text(String::from_str("responses")));
    let requires_auth = path3("model_providers", "grok_native", "requires_openai_auth");
    put_at(&mut doc, requires_auth.as_slice(), TomlWrite::Bool(false));
    let websockets = path3("model_providers", "grok_native", "supports_websockets");
    put_at(&mut doc, websockets.as_slice(), TomlWrite::Bool(provider.supports_websockets));
    let ghost provider_doc = doc;
    proof {
        reveal_strlit("name");
        reveal_strlit("base_url");
        reveal_strlit("env_key");
        reveal_strlit("wire_api");
        reveal_strlit("requires_openai_auth");
        reveal_strlit("supports_websockets");
        assert("base_url"@[0] != "wire_api"@[0]);
        assert("name"@.len() == 4 && "base_url"@.len() == 8 && "env_key"@.len() == 7 && "wire_api"@.len() == 8);
        assert("requires_openai_auth"@.len() == 20 && "supports_websockets"@.len() == 19);
        lemma_apart_at(provider_key_path("name"@), provider_key_path("base_url"@), 2);
        lemma_apart_at(provider_key_path("name"@), provider_key_path("env_key"@), 2);
        lemma_apart_at(provider_key_path("name"@), provider_key_path("wire_api"@), 2);
        lemma_apart_at(provider_key_path("name"@), provider_key_path("requires_openai_auth"@), 2);
        lemma_apart_at(provider_key_path("name"@), provider_key_path("supports_websockets"@), 2);
        lemma_apart_at(provider_key_path("base_url"@), provider_key_path("env_key"@), 2);
        lemma_apart_at(provider_key_path("base_url"@), provider_key_path("wire_api"@), 2);
        lemma_apart_at(provider_key_path("base_url"@), provider_key_path("requires_openai_auth"@), 2);
        lemma_apart_at(provider_key_path("base_url"@), provider_key_path("supports_websockets"@), 2);
        lemma_apart_at(provider_key_path("env_key"@), provider_key_path("wire_api"@), 2);
        lemma_apart_at(provider_key_path("env_key"@), provider_key_path("requires_openai_auth"@), 2);
        lemma_apart_at(provider_key_path("env_key"@), provider_key_path("supports_websockets"@), 2);
        lemma_apart_at(provider_key_path("wire_api"@), provider_key_path("requires_openai_auth"@), 2);
        lemma_apart_at(provider_key_path("wire_api"@), provider_key_path("supports_websockets"@), 2);
        lemma_apart_at(provider_key_path("requires_openai_auth"@), provider_key_path("supports_websockets"@), 2);
    }
    let policy = path1("shell_environment_policy");
    match toml_kind(&doc, policy.as_slice()) {
        TomlKind::Absent => put_at(&mut doc, policy.as_slice(), TomlWrite::EmptyTable),
        TomlKind::Table => {},
        _ => return Err(ProviderError::PolicyNotTable),
    }
    let set_path = path2("shell_environment_policy", "set");
    let set = match toml_kind(&doc, set_path.as_slice()) {
        TomlKind::Absent => PolicySetField::Absent,
        TomlKind::Table => PolicySetField::Table(toml_keys(&doc, set_path.as_slice())),
        TomlKind::InlineTable => PolicySetField::Table(toml_keys(&doc, set_path.as_slice())),
        _ => PolicySetField::NotTable,
    };
    let exclude_path = path2("shell_environment_policy", "exclude");
    let exclude = match toml_kind(&doc, exclude_path.as_slice()) {
        TomlKind::Absent => PolicyExcludeField::Absent,
        TomlKind::Array => PolicyExcludeField::Array(toml_texts(&doc, exclude_path.as_slice())),
        _ => PolicyExcludeField::NotArray,
    };
    proof {
        reveal_strlit("set");
        reveal_strlit("exclude");
        reveal_strlit("ignore_default_excludes");
        assert(toml_at(doc, policy_key_path("set"@)) == initial_policy_field(existing@, "set"@));
        assert(toml_at(doc, policy_key_path("exclude"@)) == initial_policy_field(existing@, "exclude"@));
        lemma_guard_agrees(set, exclude, toml_at(doc, policy_key_path("set"@)), toml_at(doc, policy_key_path("exclude"@)), provider.env_key@);
    }
    let add = match plan_shell_environment_guard(&set, &exclude, provider.env_key.as_str()) {
        Ok(add) => add,
        Err(e) => return Err(e),
    };
    let ignore = path2("shell_environment_policy", "ignore_default_excludes");
    proof {
        assert("ignore_default_excludes"@.len() != "exclude"@.len());
        lemma_apart_at(policy_key_path("ignore_default_excludes"@), policy_key_path("exclude"@), 1);
    }
    put_at(&mut doc, ignore.as_slice(), TomlWrite::Bool(false));
    if let PolicyExcludeField::Absent = exclude {
        put_at(&mut doc, exclude_path.as_slice(), TomlWrite::EmptyArray);
    }
    if add {
        toml_push_text(&mut doc, exclude_path.as_slice(), provider.env_key.as_str());
    }
    let rendered = render_toml(&doc);
    proof {
        assert(provider_config_written(doc, existing@, *provider));
    }
    Ok(rendered)
}

/// The guard decided over the read fields is the guard over what the document holds.
proof fn lemma_guard_agrees(set: PolicySetField, exclude: PolicyExcludeField, set_view: TomlView, exclude_view: TomlView, key: Seq<char>)
    requires
        match set {
            PolicySetField::Absent => set_view is Absent,
            PolicySetField::Table(keys) => (set_view is Table || set_view is InlineTable) && keys@.map_values(
                |k: String| k@,
            ) == view_keys(set_view),
            PolicySetField::NotTable => !(set_view is Absent || set_view is Table || set_view is InlineTable),
        },
        match exclude {
            PolicyExcludeField::Absent => exclude_view is Absent,
            PolicyExcludeField::Array(entries) => exclude_view == TomlView::Array(
                entries@.map_values(|e: Option<String>| match e {
                    Some(t) => Some(t@),
                    None => None,
                }),
            ),
            PolicyExcludeField::NotArray => !(exclude_view is Absent || exclude_view is Array),
        },
    ensures
        shell_guard_outcome(set, exclude, key) == guard_outcome(set_view, exclude_view, key),
{
    if let PolicySetField::Table(keys) = set {
        let views = view_keys(set_view);
        if exists|i: int| 0 <= i < views.len() && same_name(#[trigger] views[i], key) {
            let i = choose|i: int| 0 <= i < views.len() && same_name(#[trigger] views[i], key);
            assert(views[i] == keys@[i]@);
        }
        if exists|i: int| 0 <= i < keys@.len() && same_name((#[trigger] keys@[i])@, key) {
            let i = choose|i: int| 0 <= i < keys@.len() && same_name((#[trigger] keys@[i])@, key);
            assert(views[i] == keys@[i]@);
        }
    }
    if let PolicyExcludeField::Array(entries) = exclude {
        let views = exclude_view->Array_0;
        assert forall|i: int| 0 <= i < entries@.len() implies (#[trigger] entries@[i] is Some) == (views[i] is Some) && (
        entries@[i] is Some ==> entries@[i]->0@ == views[i]->0) by {}
        if exists|i: int| 0 <= i < views.len() && #[trigger] views[i] is Some && same_name(views[i]->0, key) {
            let i = choose|i: int| 0 <= i < views.len() && #[trigger] views[i] is Some && same_name(views[i]->0, key);
            assert(entries@[i] is Some && same_name(entries@[i].unwrap()@, key));
        }
        if excluded(entries@, key) {
            let i = choose|i: int| 0 <= i < entries@.len() && #[trigger] entries@[i] is Some && same_name(entries@[i].unwrap()@, key);
            assert(views[i] is Some && same_name(views[i]->0, key));
        }
        if exists|i: int| 0 <= i < views.len() && #[trigger] views[i] is None {
            let i = choose|i: int| 0 <= i < views.len() && #[trigger] views[i] is None;
            assert(entries@[i] is None);
        }
        if exists|i: int| 0 <= i < entries@.len() && #[trigger] entries@[i] is None {
            let i = choose|i: int| 0 <= i < entries@.len() && #[trigger] entries@[i] is None;
            assert(views[i] is None);
        }
    }
}

/// `doc` is the configuration `existing` without the native Grok provider: the entry is
/// gone; `model_providers` is gone too when no other provider is left, else keeps the other
/// providers; every other top-level entry is kept.
pub open spec fn provider_config_removed(doc: toml_edit::DocumentMut, existing: Seq<char>) -> bool {
    let others = view_keys(initial_at(existing, providers_path())).to_set().remove("grok_native"@);
    &&& toml_at(doc, provider_path()) is Absent
    &&& others.is_empty() ==> toml_at(doc, providers_path()) is Absent
    &&& !others.is_empty() ==> toml_at(doc, providers_path()) is Table && view_keys(toml_at(doc, providers_path())).to_set()
        == others
    &&& forall|q: Seq<Seq<char>>|
        q.len() >= 2 && q[0] == "model_providers"@ && q[1] != "grok_native"@ && !others.is_empty() ==> #[trigger] toml_at(
            doc,
            q,
        ) == initial_at(existing, q)
    &&& forall|q: Seq<Seq<char>>|
        q.len() >= 1 && q[0] != "model_providers"@ ==> #[trigger] toml_at(doc, q) == initial_at(existing, q)
}

/// Removes the native Grok provider from the configuration `existing`: nothing to do for a
/// blank configuration, one without `model_providers` or one without the entry; refused
/// when it is not TOML or `model_providers` is not a table; else the rendered document.
pub fn remove_grok_native_provider_config(existing: &str) -> (result: Result<Option<String>, ProviderError>)
    ensures
        is_blank(existing@) ==> result == Ok::<Option<String>, ProviderError>(None),
        config_refused(existing@) ==> result == Err::<Option<String>, ProviderError>(ProviderError::InvalidConfig),
        !is_blank(existing@) && !config_refused(existing@) ==> {
            let providers = initial_at(existing@, providers_path());
            &&& (result == Err::<Option<String>, ProviderError>(ProviderError::ProvidersNotTable)) <==> !absent_or_table(
                providers,
            )
            &&& result is Err ==> !absent_or_table(providers)
            &&& (result matches Ok(Some(_))) <==> (providers is Table && !(initial_at(existing@, provider_path()) is Absent))
            &&& result matches Ok(Some(text)) ==> exists|doc: toml_edit::DocumentMut|
                toml_rendering(doc) == text@ && #[trigger] provider_config_removed(doc, existing@)
        },
{
    if is_blank_text(existing) {
        return Ok(None);
    }
    let mut doc = match parse_toml(existing) {
        Some(doc) => doc,
        None => return Err(ProviderError::InvalidConfig),
    };
    proof {
        reveal_strlit("model_providers");
        reveal_strlit("grok_native");
    }
    let providers = path1("model_providers");
    match toml_kind(&doc, providers.as_slice()) {
        TomlKind::Absent => return Ok(None),
        TomlKind::Table => {},
        _ => return Err(ProviderError::ProvidersNotTable),
    }
    let entry = path2("model_providers", "grok_native");
    let ghost before = doc;
    let changed = toml_remove(&mut doc, entry.as_slice());
    let remaining = toml_keys(&doc, providers.as_slice());
    let ghost others = view_keys(toml_at(before, providers_path())).to_set().remove("grok_native"@);
    proof {
        let after = remaining@.map_values(|k: String| k@);
        if remaining.len() == 0 {
            assert(after.to_set() =~= Set::<Seq<char>>::empty());
        } else {
            assert(after.to_set().contains(after[0]));
        }
        assert forall|q: Seq<Seq<char>>| q.len() >= 1 && q[0] != "model_providers"@ implies #[trigger] toml_at(doc, q)
            == toml_at(before, q) by {
            lemma_apart_at(q, provider_path(), 0);
        }
        assert forall|q: Seq<Seq<char>>| q.len() >= 2 && q[0] == "model_providers"@ && q[1] != "grok_native"@ implies #[trigger] toml_at(
            doc,
            q,
        ) == toml_at(before, q) by {
            lemma_apart_at(q, provider_path(), 1);
            assert(q != provider_path().drop_last()) by {
                assert(provider_path().drop_last().len() == 1);
            }
        }
    }
    if remaining.len() == 0 {
        let ghost kept = doc;
        let gone = toml_remove(&mut doc, providers.as_slice());
        proof {
            assert forall|q: Seq<Seq<char>>| q.len() >= 1 && q[0] != "model_providers"@ implies #[trigger] toml_at(doc, q)
                == toml_at(kept, q) by {
                lemma_apart_at(q, providers_path(), 0);
            }
        }
    }
    if changed {
        let rendered = render_toml(&doc);
        proof {
            assert(provider_path().take(2) =~= provider_path());
            assert(provider_path().take(1) =~= providers_path());
            assert(providers_path().take(1) =~= providers_path());
            assert(provider_config_removed(doc, existing@));
        }
        Ok(Some(rendered))
    } else {
        Ok(None)
    }
}

pub open spec fn catalog_reference_path() -> Seq<Seq<char>> {
    seq!["model_catalog_json"@]
}

/// Points the configuration `existing` at the native model catalog `catalog_path`: refused
/// when it is not TOML; else the rendered document, its `model_catalog_json` the path and
/// every other top-level entry kept.
pub fn install_catalog_reference_config(existing: &str, catalog_path: &str) -> (result: Result<String, ProviderError>)
    ensures
        config_refused(existing@) <==> result is Err,
        result is Err ==> result == Err::<String, ProviderError>(ProviderError::InvalidConfig),
        result matches Ok(text) ==> exists|doc: toml_edit::DocumentMut|
            toml_rendering(doc) == text@ && #[trigger] toml_at(doc, catalog_reference_path()) == TomlView::Text(catalog_path@)
                && forall|q: Seq<Seq<char>>|
                q.len() >= 1 && q[0] != "model_catalog_json"@ ==> #[trigger] toml_at(doc, q) == initial_at(existing@, q),
{
    let mut doc = if is_blank_text(existing) {
        empty_toml()
    } else {
        match parse_toml(existing) {
            Some(doc) => doc,
            None => return Err(ProviderError::InvalidConfig),
        }
    };
    proof {
        assert forall|q: Seq<Seq<char>>| q.len() >= 1 implies #[trigger] toml_at(doc, q) == initial_at(existing@, q) by {}
    }
    let ghost start = doc;
    let reference = path1("model_catalog_json");
    let path_text = String::from_str(catalog_path);
    proof {
        assert(path_view(reference@)[0] == reference@[0]@);
    }
    put_at(&mut doc, reference.as_slice(), TomlWrite::Text(path_text));
    let rendered = render_toml(&doc);
    proof {
        assert(toml_at(doc, catalog_reference_path()) == TomlView::Text(catalog_path@));
    }
    proof {
        assert forall|q: Seq<Seq<char>>| q.len() >= 1 && q[0] != "model_catalog_json"@ implies #[trigger] toml_at(doc, q)
            == initial_at(existing@, q) by {
            assert(toml_at(start, q) == initial_at(existing@, q));
        }
    }
    Ok(rendered)
}

/// Removes the configuration's pointer to the native model catalog `catalog_path`: nothing
/// to do for a blank configuration or one whose `model_catalog_json` is not that path;
/// refused when it is not TOML; else the rendered document without `model_catalog_json`,
/// every other top-level entry kept.
pub fn remove_catalog_reference_config(existing: &str, catalog_path: &str) -> (result: Result<Option<String>, ProviderError>)
    ensures
        config_refused(existing@) <==> result is Err,
        result is Err ==> result == Err::<Option<String>, ProviderError>(ProviderError::InvalidConfig),
        !config_refused(existing@) ==> ((result matches Ok(Some(_))) <==> initial_at(existing@, catalog_reference_path())
            == TomlView::Text(catalog_path@)),
        result matches Ok(Some(text)) ==> exists|doc: toml_edit::DocumentMut|
            toml_rendering(doc) == text@ && #[trigger] toml_at(doc, catalog_reference_path()) is Absent && forall|
                q: Seq<Seq<char>>,
            |
                q.len() >= 1 && q[0] != "model_catalog_json"@ ==> #[trigger] toml_at(doc, q) == initial_at(existing@, q),
{
    if is_blank_text(existing) {
        return Ok(None);
    }
    let mut doc = match parse_toml(existing) {
        Some(doc) => doc,
        None => return Err(ProviderError::InvalidConfig),
    };
    proof {
        assert forall|q: Seq<Seq<char>>| q.len() >= 1 implies #[trigger] toml_at(doc, q) == initial_at(existing@, q) by {}
    }
    let ghost start = doc;
    let reference = path1("model_catalog_json");
    let matches = match toml_kind(&doc, reference.as_slice()) {
        TomlKind::Text(text) => crate::text::chars_equal(
            crate::text::chars_of(text.as_str()).as_slice(),
            crate::text::chars_of(catalog_path).as_slice(),
        ),
        _ => false,
    };
    if !matches {
        return Ok(None);
    }
    let removed = toml_remove(&mut doc, reference.as_slice());
    let rendered = render_toml(&doc);
    proof {
        assert forall|q: Seq<Seq<char>>| q.len() >= 1 && q[0] != "model_catalog_json"@ implies #[trigger] toml_at(doc, q)
            == initial_at(existing@, q) by {
            lemma_apart_at(q, catalog_reference_path(), 0);
            assert(catalog_reference_path().drop_last().len() == 0);
        }
        assert(catalog_reference_path().take(1) =~= catalog_reference_path());
        assert(toml_at(doc, catalog_reference_path()) is Absent);
    }
    Ok(Some(rendered))
}

} // verus!
