//! The provider's model catalog: where it is listed, which listed models are usable, which
//! of them have a reviewed Grok capability profile, and searching them.

use vstd::prelude::*;

use crate::compatibility::{ascii_lower, to_ascii_lower_char};
use crate::strings::{lowercase, push_chars, string_from_chars, to_lowercase};
use crate::text::{chars_equal, chars_of, is_bounded_clean, is_bounded_clean_chars, slice_chars, trim_chars, trimmed};

verus! {

/// The parts of a URI that the library reads, as `http::Uri` reports them.
#[derive(Debug, Clone, PartialEq, Eq)]
pub struct UriParts {
    pub scheme: Option<String>,
    pub host: Option<String>,
    pub authority: Option<String>,
    pub query: Option<String>,
    pub path: String,
    pub port: Option<u16>,
}

/// The parts of a URI, as values.
pub ghost struct UriView {
    pub scheme: Option<Seq<char>>,
    pub host: Option<Seq<char>>,
    pub authority: Option<Seq<char>>,
    pub query: Option<Seq<char>>,
    pub path: Seq<char>,
    pub port: Option<u16>,
}

pub open spec fn opt_text(value: Option<String>) -> Option<Seq<char>> {
    match value {
        Some(text) => Some(text@),
        None => None,
    }
}

pub open spec fn uri_view(parts: Option<UriParts>) -> Option<UriView> {
    match parts {
        Some(p) => Some(
            UriView {
                scheme: opt_text(p.scheme),
                host: opt_text(p.host),
                authority: opt_text(p.authority),
                query: opt_text(p.query),
                path: p.path@,
                port: p.port,
            },
        ),
        None => None,
    }
}

/// How `http::Uri` parses a text: `None` when it refuses it, else its parts.
pub uninterp spec fn parsed_uri(text: Seq<char>) -> Option<UriView>;

/// Parses `text` with `http::Uri`'s `FromStr` and reads its scheme, host, authority, query,
/// path and port. Claims only that the result is a function of the text.
#[verifier::external_body]
pub(crate) fn parse_uri(text: &str) -> (result: Option<UriParts>)
    ensures
        uri_view(result) == parsed_uri(text@),
{
    let uri: http::Uri = text.parse().ok()?;
    Some(
        UriParts {
            scheme: uri.scheme_str().map(String::from),
            host: uri.host().map(String::from),
            authority: uri.authority().map(|authority| authority.as_str().to_string()),
            query: uri.query().map(String::from),
            path: uri.path().to_string(),
            port: uri.port_u16(),
        },
    )
}

/// Why a provider URL, action path, model list or key was refused.
#[derive(Debug, Clone, Copy, PartialEq, Eq, Structural)]
pub enum ModelError {
    InvalidBaseUrl,
    MissingScheme,
    MissingHost,
    MissingAuthority,
    InsecureScheme,
    CredentialsOrQuery,
    NotVersionOne,
    InvalidActionPath,
    InvalidResponseSize,
    TooManyModels,
    InvalidModelId,
    InvalidModelOwner,
    NoUsableModels,
    InvalidApiKey,
}

/// `s` without trailing `c`.
pub open spec fn trim_end_char(s: Seq<char>, c: char) -> Seq<char>
    decreases s.len(),
{
    if s.len() > 0 && s.last() == c {
        trim_end_char(s.drop_last(), c)
    } else {
        s
    }
}

pub open spec fn ends_with(s: Seq<char>, suffix: Seq<char>) -> bool {
    s.len() >= suffix.len() && s.skip(s.len() - suffix.len()) == suffix
}

pub open spec fn starts_with(s: Seq<char>, prefix: Seq<char>) -> bool {
    s.len() >= prefix.len() && s.take(prefix.len() as int) == prefix
}

pub open spec fn contains_char(s: Seq<char>, c: char) -> bool {
    exists|i: int| 0 <= i < s.len() && s[i] == c
}

pub open spec fn is_loopback_host(host: Seq<char>) -> bool {
    host == "127.0.0.1"@ || host == "localhost"@ || host == "::1"@
}

/// The model list endpoint of a provider base URL: an HTTPS URL (or HTTP on a loopback
/// host) without credentials or query, whose path ends in `/v1`; the list is at `/models`
/// under it.
pub open spec fn model_list_outcome(base_url: Seq<char>) -> Result<Seq<char>, ModelError> {
    model_list_outcome_of(base_url, parsed_uri(base_url))
}

/// The model list endpoint of `base_url` given how it parses as a URI (`None` when it
/// does not).
pub open spec fn model_list_outcome_of(base_url: Seq<char>, parsed: Option<UriView>) -> Result<Seq<char>, ModelError> {
    match parsed {
        None => Err(ModelError::InvalidBaseUrl),
        Some(uri) => match (uri.scheme, uri.host, uri.authority) {
            (None, _, _) => Err(ModelError::MissingScheme),
            (Some(_), None, _) => Err(ModelError::MissingHost),
            (Some(_), Some(_), None) => Err(ModelError::MissingAuthority),
            (Some(scheme), Some(host), Some(authority)) => if scheme != "https"@ && !(scheme == "http"@
                && is_loopback_host(host)) {
                Err(ModelError::InsecureScheme)
            } else if contains_char(authority, '@') || uri.query is Some {
                Err(ModelError::CredentialsOrQuery)
            } else if !ends_with(trim_end_char(uri.path, '/'), "/v1"@) {
                Err(ModelError::NotVersionOne)
            } else {
                Ok(trim_end_char(base_url, '/') + "/models"@)
            },
        },
    }
}

fn text_is(value: &String, expected: &str) -> (result: bool)
    ensures
        result == (value@ == expected@),
{
    let v = chars_of(value.as_str());
    let e = chars_of(expected);
    chars_equal(v.as_slice(), e.as_slice())
}

fn trim_end_slash(chars: &[char]) -> (result: Vec<char>)
    ensures
        result@ == trim_end_char(chars@, '/'),
{
    let mut end = chars.len();
    proof {
        assert(chars@.take(chars@.len() as int) =~= chars@);
    }
    while end > 0 && chars[end - 1] == '/'
        invariant
            end <= chars@.len(),
            trim_end_char(chars@, '/') == trim_end_char(chars@.take(end as int), '/'),
        decreases end,
    {
        proof {
            assert(chars@.take(end as int).drop_last() =~= chars@.take(end - 1));
        }
        end -= 1;
    }
    proof {
        assert(chars@.subrange(0, end as int) =~= chars@.take(end as int));
    }
    slice_chars(chars, 0, end)
}

fn has_suffix(chars: &[char], suffix: &[char]) -> (result: bool)
    ensures
        result == ends_with(chars@, suffix@),
{
    let n = chars.len();
    let m = suffix.len();
    if n < m {
        return false;
    }
    let tail = slice_chars(chars, n - m, n);
    proof {
        assert(tail@ =~= chars@.skip(n - m));
    }
    chars_equal(tail.as_slice(), suffix)
}

fn has_char(chars: &[char], c: char) -> (result: bool)
    ensures
        result == contains_char(chars@, c),
{
    for i in 0..chars.len()
        invariant
            forall|t: int| 0 <= t < i ==> chars@[t] != c,
    {
        if chars[i] == c {
            return true;
        }
    }
    false
}

/// The model list endpoint of a provider base URL.
pub fn model_list_url(base_url: &str) -> (result: Result<String, ModelError>)
    ensures
        match result {
            Ok(url) => model_list_outcome(base_url@) == Ok::<Seq<char>, ModelError>(url@),
            Err(e) => model_list_outcome(base_url@) == Err::<Seq<char>, ModelError>(e),
        },
{
    model_list_url_from(base_url, parse_uri(base_url))
}

/// The model list endpoint of a provider base URL, given the parts of its parsed URI
/// (`None` when it does not parse).
pub fn model_list_url_from(base_url: &str, parsed: Option<UriParts>) -> (result: Result<String, ModelError>)
    ensures
        match result {
            Ok(url) => model_list_outcome_of(base_url@, uri_view(parsed)) == Ok::<Seq<char>, ModelError>(url@),
            Err(e) => model_list_outcome_of(base_url@, uri_view(parsed)) == Err::<Seq<char>, ModelError>(e),
        },
{
    let uri = match parsed {
        Some(uri) => uri,
        None => {
            return Err(ModelError::InvalidBaseUrl);
        },
    };
    let scheme = match &uri.scheme {
        Some(s) => s,
        None => {
            return Err(ModelError::MissingScheme);
        },
    };
    let host = match &uri.host {
        Some(h) => h,
        None => {
            return Err(ModelError::MissingHost);
        },
    };
    let authority = match &uri.authority {
        Some(a) => a,
        None => {
            return Err(ModelError::MissingAuthority);
        },
    };
    let loopback = text_is(host, "127.0.0.1") || text_is(host, "localhost") || text_is(host, "::1");
    if !text_is(scheme, "https") && !(text_is(scheme, "http") && loopback) {
        return Err(ModelError::InsecureScheme);
    }
    let authority_chars = chars_of(authority.as_str());
    if has_char(authority_chars.as_slice(), '@') || uri.query.is_some() {
        return Err(ModelError::CredentialsOrQuery);
    }
    let path = chars_of(uri.path.as_str());
    let trimmed_path = trim_end_slash(path.as_slice());
    let v1 = chars_of("/v1");
    if !has_suffix(trimmed_path.as_slice(), v1.as_slice()) {
        return Err(ModelError::NotVersionOne);
    }
    let base = chars_of(base_url);
    let mut url = string_from_chars(trim_end_slash(base.as_slice()).as_slice());
    let models = chars_of("/models");
    push_chars(&mut url, models.as_slice());
    Ok(url)
}

/// A model that the provider lists.
#[derive(Debug, Clone, PartialEq, Eq)]
pub struct DiscoveredModel {
    pub id: String,
    pub owned_by: Option<String>,
}

/// The model ids with a reviewed Grok capability profile, compared case-sensitively:
/// `grok-4.5`, `grok-4.3` with `-low`, `-medium` or `-high`, and `grok-4.20-multi-agent`
/// with `-low`, `-medium`, `-high` or `-xhigh`.
pub open spec fn is_reviewed_grok_model(model: Seq<char>) -> bool {
    ||| model == "grok-4.5"@
    ||| model == "grok-4.3-high"@
    ||| model == "grok-4.3-medium"@
    ||| model == "grok-4.3-low"@
    ||| model == "grok-4.20-multi-agent-xhigh"@
    ||| model == "grok-4.20-multi-agent-high"@
    ||| model == "grok-4.20-multi-agent-medium"@
    ||| model == "grok-4.20-multi-agent-low"@
}

fn chars_is(chars: &Vec<char>, expected: &str) -> (result: bool)
    ensures
        result == (chars@ == expected@),
{
    let e = chars_of(expected);
    chars_equal(chars.as_slice(), e.as_slice())
}

/// A reasoning effort that a reviewed `grok-4.3` model is offered with.
pub open spec fn grok_4_3_effort(effort: Seq<char>) -> bool {
    effort == seq!['l', 'o', 'w'] || effort == seq!['m', 'e', 'd', 'i', 'u', 'm'] || effort == seq!['h', 'i', 'g', 'h']
}

/// A reasoning effort that a reviewed `grok-4.20-multi-agent` model is offered with.
pub open spec fn multi_agent_effort(effort: Seq<char>) -> bool {
    grok_4_3_effort(effort) || effort == seq!['x', 'h', 'i', 'g', 'h']
}

pub open spec fn grok_4_3_base() -> Seq<char> {
    seq!['g', 'r', 'o', 'k', '-', '4', '.', '3', '-']
}

pub open spec fn multi_agent_base() -> Seq<char> {
    seq!['g', 'r', 'o', 'k', '-', '4', '.', '2', '0', '-', 'm', 'u', 'l', 't', 'i', '-', 'a', 'g', 'e', 'n', 't', '-']
}

/// The reviewed capability profiles: `grok-4.5`, or a reviewed base followed by `-` and one
/// of the efforts reviewed for it.
pub open spec fn reviewed_profile(model: Seq<char>) -> bool {
    ||| model == seq!['g', 'r', 'o', 'k', '-', '4', '.', '5']
    ||| (model.len() > grok_4_3_base().len() && model.take(grok_4_3_base().len() as int) == grok_4_3_base()
        && grok_4_3_effort(model.skip(grok_4_3_base().len() as int)))
    ||| (model.len() > multi_agent_base().len() && model.take(multi_agent_base().len() as int) == multi_agent_base()
        && multi_agent_effort(model.skip(multi_agent_base().len() as int)))
}

/// The reviewed models are exactly `grok-4.5`, `grok-4.3` with a `low`, `medium` or `high`
/// effort, and `grok-4.20-multi-agent` with a `low`, `medium`, `high` or `xhigh` effort; so
/// each of those ids is injectable, and no other is.
pub proof fn lemma_reviewed_models_are_the_profiles(model: Seq<char>)
    ensures
        is_reviewed_grok_model(model) <==> reviewed_profile(model),
{
    reveal_strlit("grok-4.5");
    reveal_strlit("grok-4.3-high");
    reveal_strlit("grok-4.3-medium");
    reveal_strlit("grok-4.3-low");
    reveal_strlit("grok-4.20-multi-agent-xhigh");
    reveal_strlit("grok-4.20-multi-agent-high");
    reveal_strlit("grok-4.20-multi-agent-medium");
    reveal_strlit("grok-4.20-multi-agent-low");
    let a = grok_4_3_base();
    let b = multi_agent_base();
    let low = seq!['l', 'o', 'w'];
    let medium = seq!['m', 'e', 'd', 'i', 'u', 'm'];
    let high = seq!['h', 'i', 'g', 'h'];
    let xhigh = seq!['x', 'h', 'i', 'g', 'h'];
    assert("grok-4.5"@ =~= seq!['g', 'r', 'o', 'k', '-', '4', '.', '5']);
    assert("grok-4.3-high"@ =~= a + high);
    assert("grok-4.3-medium"@ =~= a + medium);
    assert("grok-4.3-low"@ =~= a + low);
    assert("grok-4.20-multi-agent-xhigh"@ =~= b + xhigh);
    assert("grok-4.20-multi-agent-high"@ =~= b + high);
    assert("grok-4.20-multi-agent-medium"@ =~= b + medium);
    assert("grok-4.20-multi-agent-low"@ =~= b + low);
    if model.len() > a.len() && model.take(a.len() as int) == a {
        assert(model =~= a + model.skip(a.len() as int));
    }
    if model.len() > b.len() && model.take(b.len() as int) == b {
        assert(model =~= b + model.skip(b.len() as int));
    }
    assert forall|e: Seq<char>| #[trigger] (a + e).take(a.len() as int) == a && (a + e).skip(a.len() as int) == e by {
        assert((a + e).take(a.len() as int) =~= a);
        assert((a + e).skip(a.len() as int) =~= e);
    }
    assert forall|e: Seq<char>| #[trigger] (b + e).take(b.len() as int) == b && (b + e).skip(b.len() as int) == e by {
        assert((b + e).take(b.len() as int) =~= b);
        assert((b + e).skip(b.len() as int) =~= e);
    }
    assert(a.len() == 9 && b.len() == 22);
    assert(a + high != b + high) by {
        assert((a + high).len() != (b + high).len());
    }
}

/// Whether `model` has a reviewed Grok capability profile.
pub fn is_reviewed_grok_model_id(model: &str) -> (result: bool)
    ensures
        result == is_reviewed_grok_model(model@),
{
    let m = chars_of(model);
    chars_is(&m, "grok-4.5") || chars_is(&m, "grok-4.3-high") || chars_is(
        &m,
        "grok-4.3-medium",
    ) || chars_is(&m, "grok-4.3-low") || chars_is(&m, "grok-4.20-multi-agent-xhigh") || chars_is(
        &m,
        "grok-4.20-multi-agent-high",
    ) || chars_is(&m, "grok-4.20-multi-agent-medium") || chars_is(&m, "grok-4.20-multi-agent-low")
}

/// The models of `models` that satisfy `keep`, in order.
pub open spec fn kept_models(models: Seq<DiscoveredModel>, keep: spec_fn(DiscoveredModel) -> bool) -> Seq<DiscoveredModel>
    decreases models.len(),
{
    if models.len() == 0 {
        Seq::empty()
    } else if keep(models.last()) {
        kept_models(models.drop_last(), keep).push(models.last())
    } else {
        kept_models(models.drop_last(), keep)
    }
}

pub open spec fn deref_models(models: Seq<&DiscoveredModel>) -> Seq<DiscoveredModel> {
    models.map_values(|model: &DiscoveredModel| *model)
}

/// The models with a reviewed Grok capability profile, in order.
pub fn injectable_grok_models(models: &[DiscoveredModel]) -> (result: Vec<&DiscoveredModel>)
    ensures
        deref_models(result@) == kept_models(models@, |model: DiscoveredModel| is_reviewed_grok_model(model.id@)),
{
    let ghost keep = |model: DiscoveredModel| is_reviewed_grok_model(model.id@);
    let mut result: Vec<&DiscoveredModel> = Vec::new();
    proof {
        assert(deref_models(result@) =~= kept_models(models@.take(0), keep));
    }
    for i in 0..models.len()
        invariant
            keep == (|model: DiscoveredModel| is_reviewed_grok_model(model.id@)),
            deref_models(result@) == kept_models(models@.take(i as int), keep),
    {
        let ghost before = result@;
        proof {
            assert(models@.take(i + 1).drop_last() =~= models@.take(i as int));
            assert(models@.take(i + 1).last() == models@[i as int]);
        }
        if is_reviewed_grok_model_id(models[i].id.as_str()) {
            result.push(&models[i]);
            proof {
                assert(deref_models(result@) =~= deref_models(before).push(models@[i as int]));
            }
        }
    }
    proof {
        assert(models@.take(models@.len() as int) =~= models@);
    }
    result
}

/// `needle` occurs in `text`.
pub open spec fn contains_text(text: Seq<char>, needle: Seq<char>) -> bool {
    exists|i: int| 0 <= i && i + needle.len() <= text.len() && #[trigger] text.subrange(i, i + needle.len()) == needle
}

/// A model matches a lowercase query when its lowercased id, or its lowercased owner,
/// contains it.
pub open spec fn model_matches(model: DiscoveredModel, query: Seq<char>) -> bool {
    contains_text(lowercase(model.id@), query) || (model.owned_by matches Some(owner) && contains_text(
        lowercase(owner@),
        query,
    ))
}

fn occurs_in(text: &[char], needle: &[char]) -> (result: bool)
    ensures
        result == contains_text(text@, needle@),
{
    let n = text.len();
    let m = needle.len();
    if m > n {
        return false;
    }
    if m == 0 {
        proof {
            assert(text@.subrange(0int, 0int + needle@.len()) =~= needle@);
        }
        return true;
    }
    let mut i: usize = 0;
    while i <= n - m
        invariant
            n == text@.len(),
            m == needle@.len(),
            0 < m <= n,
            i <= n - m + 1,
            forall|t: int| 0 <= t < i ==> #[trigger] text@.subrange(t, t + m) != needle@,
        decreases n - m + 1 - i,
    {
        let window = slice_chars(text, i, i + m);
        if chars_equal(window.as_slice(), needle) {
            return true;
        }
        i += 1;
    }
    false
}

fn lowered(text: &String) -> (result: Vec<char>)
    ensures
        result@ == lowercase(text@),
{
    let lower = to_lowercase(text.as_str());
    chars_of(lower.as_str())
}

/// The models that match `query`, trimmed and lowercased, in order; all of them when the
/// query is blank.
pub fn search_models<'a>(models: &'a [DiscoveredModel], query: &str) -> (result: Vec<&'a DiscoveredModel>)
    ensures
        ({
            let q = lowercase(trimmed(query@));
            deref_models(result@) == if q.len() == 0 {
                models@
            } else {
                kept_models(models@, |model: DiscoveredModel| model_matches(model, q))
            }
        }),
{
    let trimmed_query = string_from_chars(trim_chars(query).as_slice());
    let q = lowered(&trimmed_query);
    let ghost keep = |model: DiscoveredModel| model_matches(model, q@);
    let mut result: Vec<&DiscoveredModel> = Vec::new();
    proof {
        assert(deref_models(result@) =~= kept_models(models@.take(0), keep));
        assert(deref_models(result@) =~= models@.take(0));
    }
    for i in 0..models.len()
        invariant
            keep == (|model: DiscoveredModel| model_matches(model, q@)),
            q@.len() == 0 ==> deref_models(result@) == models@.take(i as int),
            q@.len() > 0 ==> deref_models(result@) == kept_models(models@.take(i as int), keep),
    {
        let ghost before = result@;
        proof {
            assert(models@.take(i + 1).drop_last() =~= models@.take(i as int));
            assert(models@.take(i + 1).last() == models@[i as int]);
            assert(models@.take(i + 1) =~= models@.take(i as int).push(models@[i as int]));
        }
        let model = &models[i];
        let keep_it = if q.len() == 0 {
            true
        } else {
            occurs_in(lowered(&model.id).as_slice(), q.as_slice()) || match &model.owned_by {
                Some(owner) => occurs_in(lowered(owner).as_slice(), q.as_slice()),
                None => false,
            }
        };
        if keep_it {
            result.push(model);
            proof {
                assert(deref_models(result@) =~= deref_models(before).push(models@[i as int]));
            }
        }
    }
    proof {
        assert(models@.take(models@.len() as int) =~= models@);
    }
    result
}

/// The most bytes a model list response may hold.
pub const MAX_MODEL_RESPONSE_BYTES: usize = 4194304;

/// The most models a model list may hold.
pub const MAX_MODELS: usize = 4096;

/// The most bytes a provider API key may hold.
pub const MAX_API_KEY_BYTES: usize = 2048;

/// Checks a text that the model endpoint returned: non-empty, at most `max_len` bytes,
/// trimmed, and free of control characters.
pub fn validate_model_text(value: &str, max_len: usize) -> (result: bool)
    ensures
        result == is_bounded_clean_chars(value@, max_len),
{
    is_bounded_clean(value, max_len)
}

/// Checks a provider API key: non-empty, at most `MAX_API_KEY_BYTES` bytes, trimmed, and
/// free of control characters.
pub fn validate_api_key(api_key: &str) -> (result: Result<(), ModelError>)
    ensures
        result is Ok <==> is_bounded_clean_chars(api_key@, MAX_API_KEY_BYTES),
        result matches Err(e) ==> e == ModelError::InvalidApiKey,
{
    if is_bounded_clean(api_key, MAX_API_KEY_BYTES) {
        Ok(())
    } else {
        Err(ModelError::InvalidApiKey)
    }
}

/// Checks the size of a model list response: non-empty and at most
/// `MAX_MODEL_RESPONSE_BYTES`.
pub fn check_model_response_size(byte_len: usize) -> (result: Result<(), ModelError>)
    ensures
        result is Ok <==> 0 < byte_len <= MAX_MODEL_RESPONSE_BYTES,
        result matches Err(e) ==> e == ModelError::InvalidResponseSize,
{
    if byte_len == 0 || byte_len > MAX_MODEL_RESPONSE_BYTES {
        Err(ModelError::InvalidResponseSize)
    } else {
        Ok(())
    }
}

/// An entry of a model list response.
#[derive(Debug, Clone, PartialEq, Eq)]
pub struct ModelListEntry {
    pub id: String,
    pub owned_by: Option<String>,
}

/// A usable model as values: its id and owner.
pub type ModelView = (Seq<char>, Option<Seq<char>>);

pub open spec fn model_view(model: DiscoveredModel) -> ModelView {
    (model.id@, opt_text(model.owned_by))
}

/// The usable models of the first `count` entries, in order: an entry with an invalid id
/// refuses the list; an entry whose id came before is skipped; an entry with an invalid
/// owner refuses the list.
pub open spec fn collected_models(entries: Seq<ModelListEntry>, count: int) -> Result<Seq<ModelView>, ModelError>
    decreases count,
{
    if count <= 0 {
        Ok(Seq::empty())
    } else {
        match collected_models(entries, count - 1) {
            Err(e) => Err(e),
            Ok(models) => {
                let entry = entries[count - 1];
                if !is_bounded_clean_chars(entry.id@, 256) {
                    Err(ModelError::InvalidModelId)
                } else if exists|j: int| 0 <= j < count - 1 && #[trigger] entries[j].id@ == entry.id@ {
                    Ok(models)
                } else {
                    match entry.owned_by {
                        Some(owner) => if is_bounded_clean_chars(owner@, 128) {
                            Ok(models.push((entry.id@, Some(owner@))))
                        } else {
                            Err(ModelError::InvalidModelOwner)
                        },
                        None => Ok(models.push((entry.id@, None))),
                    }
                }
            },
        }
    }
}

/// The usable models of a model list: at most `MAX_MODELS` entries, and at least one usable.
pub open spec fn model_list_models(entries: Seq<ModelListEntry>) -> Result<Seq<ModelView>, ModelError> {
    if entries.len() > MAX_MODELS {
        Err(ModelError::TooManyModels)
    } else {
        match collected_models(entries, entries.len() as int) {
            Ok(models) => if models.len() == 0 {
                Err(ModelError::NoUsableModels)
            } else {
                Ok(models)
            },
            Err(e) => Err(e),
        }
    }
}

pub open spec fn models_view(models: Seq<DiscoveredModel>) -> Seq<ModelView> {
    models.map_values(|model: DiscoveredModel| model_view(model))
}

proof fn lemma_collected_error_extends(entries: Seq<ModelListEntry>, count: int, total: int)
    requires
        0 <= count <= total,
        collected_models(entries, count) is Err,
    ensures
        collected_models(entries, total) == collected_models(entries, count),
    decreases total - count,
{
    if count < total {
        lemma_collected_error_extends(entries, count + 1, total);
    }
}

fn id_seen_before(entries: &Vec<ModelListEntry>, end: usize) -> (result: bool)
    requires
        end < entries@.len(),
    ensures
        result == exists|j: int| 0 <= j < end && #[trigger] entries@[j].id@ == entries@[end as int].id@,
{
    let target = chars_of(entries[end].id.as_str());
    for j in 0..end
        invariant
            end < entries@.len(),
            target@ == entries@[end as int].id@,
            forall|t: int| 0 <= t < j ==> #[trigger] entries@[t].id@ != entries@[end as int].id@,
    {
        let other = chars_of(entries[j].id.as_str());
        if chars_equal(other.as_slice(), target.as_slice()) {
            return true;
        }
    }
    false
}

/// The usable models of a model list response's entries.
pub fn collect_models(entries: Vec<ModelListEntry>) -> (result: Result<Vec<DiscoveredModel>, ModelError>)
    ensures
        match result {
            Ok(models) => model_list_models(entries@) == Ok::<Seq<ModelView>, ModelError>(models_view(models@)),
            Err(e) => model_list_models(entries@) == Err::<Seq<ModelView>, ModelError>(e),
        },
{
    if entries.len() > MAX_MODELS {
        return Err(ModelError::TooManyModels);
    }
    let mut models: Vec<DiscoveredModel> = Vec::new();
    proof {
        assert(models_view(models@) =~= Seq::<ModelView>::empty());
    }
    for i in 0..entries.len()
        invariant
            entries@.len() <= MAX_MODELS,
            collected_models(entries@, i as int) == Ok::<Seq<ModelView>, ModelError>(models_view(models@)),
    {
        let entry = &entries[i];
        if !is_bounded_clean(entry.id.as_str(), 256) {
            proof {
                lemma_collected_error_extends(entries@, i + 1, entries@.len() as int);
            }
            return Err(ModelError::InvalidModelId);
        }
        if !id_seen_before(&entries, i) {
            let ghost before = models@;
            let model = match &entry.owned_by {
                Some(owner) => {
                    if !is_bounded_clean(owner.as_str(), 128) {
                        proof {
                            lemma_collected_error_extends(entries@, i + 1, entries@.len() as int);
                        }
                        return Err(ModelError::InvalidModelOwner);
                    }
                    DiscoveredModel { id: entry.id.clone(), owned_by: Some(owner.clone()) }
                },
                None => DiscoveredModel { id: entry.id.clone(), owned_by: None },
            };
            let ghost mv = model_view(model);
            models.push(model);
            proof {
                assert(models_view(models@) =~= models_view(before).push(mv));
            }
        }
    }
    if models.len() == 0 {
        return Err(ModelError::NoUsableModels);
    }
    Ok(models)
}

} // verus!
