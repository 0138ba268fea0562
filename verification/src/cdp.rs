//! What the loopback DevTools client decides: which listed target is the official app's
//! renderer, which port its websocket uses, and whether the injected bootstrap reports
//! itself healthy.

use vstd::prelude::*;

use crate::direct::{target_error, DirectCdpTarget, DirectError};
use crate::json::{json_as_bool, json_as_text, json_bool, json_get, json_member, json_text};
use crate::model_discovery::{parse_uri, parsed_uri};
use crate::text::{chars_equal, chars_of};

verus! {

/// A target that the DevTools endpoint lists.
#[derive(Debug, Clone, PartialEq, Eq)]
pub struct RawCdpTarget {
    pub id: String,
    pub kind: String,
    pub url: String,
    pub websocket_url: Option<String>,
}

/// Why the DevTools client refused what the endpoint reported.
#[derive(Debug, Clone, Copy, PartialEq, Eq, Structural)]
pub enum CdpError {
    MultipleRenderers,
    Target(DirectError),
    InvalidWebsocketUrl,
    MissingPort,
}

/// A listed page of the official app, with a websocket to reach it.
pub open spec fn is_app_page(target: RawCdpTarget) -> bool {
    &&& target.kind@ == "page"@
    &&& target.url@ == "app://-/index.html"@
    &&& target.websocket_url is Some
}

/// The target that a listed app page stands for.
pub open spec fn as_direct_target(target: RawCdpTarget) -> DirectCdpTarget {
    DirectCdpTarget { id: target.id, page_url: target.url, websocket_url: target.websocket_url->0 }
}

/// What a listing yields on `port`: nothing while no app page is listed; a refusal when two
/// are, or when the one listed does not belong to the isolated instance; else that page.
pub open spec fn app_target_outcome(targets: Seq<RawCdpTarget>, port: u16) -> Result<Option<DirectCdpTarget>, CdpError> {
    if !exists|i: int| 0 <= i < targets.len() && is_app_page(#[trigger] targets[i]) {
        Ok(None)
    } else if exists|i: int, j: int|
        0 <= i < j < targets.len() && is_app_page(#[trigger] targets[i]) && is_app_page(#[trigger] targets[j]) {
        Err(CdpError::MultipleRenderers)
    } else {
        let i = choose|i: int| 0 <= i < targets.len() && is_app_page(#[trigger] targets[i]);
        match target_error(&as_direct_target(targets[i]), port) {
            Some(e) => Err(CdpError::Target(e)),
            None => Ok(Some(as_direct_target(targets[i]))),
        }
    }
}

fn text_is(value: &String, expected: &str) -> (result: bool)
    ensures
        result == (value@ == expected@),
{
    chars_equal(chars_of(value.as_str()).as_slice(), chars_of(expected).as_slice())
}

fn app_page(target: &RawCdpTarget) -> (result: bool)
    ensures
        result == is_app_page(*target),
{
    text_is(&target.kind, "page") && text_is(&target.url, "app://-/index.html") && target.websocket_url.is_some()
}

/// The official app's renderer among the listed `targets`, checked against `port`.
pub fn select_app_target(targets: &[RawCdpTarget], port: u16) -> (result: Result<Option<DirectCdpTarget>, CdpError>)
    ensures
        match (result, app_target_outcome(targets@, port)) {
            (Ok(None), Ok(None)) => true,
            (Ok(Some(found)), Ok(Some(expected))) => found.id@ == expected.id@ && found.page_url@ == expected.page_url@
                && found.websocket_url@ == expected.websocket_url@,
            (Err(e), Err(expected)) => e == expected,
            _ => false,
        },
{
    let mut found: Option<usize> = None;
    for i in 0..targets.len()
        invariant
            match found {
                None => forall|t: int| 0 <= t < i ==> !is_app_page(#[trigger] targets@[t]),
                Some(f) => {
                    &&& f < i
                    &&& is_app_page(targets@[f as int])
                    &&& forall|t: int| 0 <= t < i && t != f ==> !is_app_page(#[trigger] targets@[t])
                },
            },
    {
        if app_page(&targets[i]) {
            match found {
                Some(f) => {
                    proof {
                        assert(is_app_page(targets@[f as int]) && is_app_page(targets@[i as int]));
                    }
                    return Err(CdpError::MultipleRenderers);
                },
                None => {
                    found = Some(i);
                },
            }
        }
    }
    let f = match found {
        None => {
            return Ok(None);
        },
        Some(f) => f,
    };
    proof {
        assert(is_app_page(targets@[f as int]));
        assert forall|i: int, j: int| 0 <= i < j < targets@.len() && is_app_page(#[trigger] targets@[i]) implies !is_app_page(
            #[trigger] targets@[j],
        ) by {
            if i != f as int {
            } else {
                assert(j != f as int);
            }
        }
        let c = choose|i: int| 0 <= i < targets@.len() && is_app_page(#[trigger] targets@[i]);
        assert(c == f as int);
    }
    let raw = &targets[f];
    let websocket_url = match &raw.websocket_url {
        Some(url) => url.clone(),
        None => {
            return Ok(None);
        },
    };
    let target = DirectCdpTarget { id: raw.id.clone(), page_url: raw.url.clone(), websocket_url };
    proof {
        assert(target.id@ == as_direct_target(targets@[f as int]).id@);
    }
    match target.validate_for_port(port) {
        Ok(()) => Ok(Some(target)),
        Err(e) => Err(CdpError::Target(e)),
    }
}

/// The port of a target's websocket URL.
pub fn target_port(target: &DirectCdpTarget) -> (result: Result<u16, CdpError>)
    ensures
        match parsed_uri(target.websocket_url@) {
            None => result == Err::<u16, CdpError>(CdpError::InvalidWebsocketUrl),
            Some(uri) => match uri.port {
                Some(port) => result == Ok::<u16, CdpError>(port),
                None => result == Err::<u16, CdpError>(CdpError::MissingPort),
            },
        },
{
    match parse_uri(target.websocket_url.as_str()) {
        None => Err(CdpError::InvalidWebsocketUrl),
        Some(uri) => match uri.port {
            Some(port) => Ok(port),
            None => Err(CdpError::MissingPort),
        },
    }
}

/// The bootstrap reports itself healthy: `ok` is `true` and `provider` is `grok_native`.
pub open spec fn reports_healthy(value: serde_json::Value) -> bool {
    &&& json_member(value, "ok"@) matches Some(ok) && json_bool(ok) == Some(true)
    &&& json_member(value, "provider"@) matches Some(provider) && json_text(provider) == Some("grok_native"@)
}

/// Whether the bootstrap's health report `value` says it is ready.
pub fn health_is_ready(value: &serde_json::Value) -> (result: bool)
    ensures
        result == reports_healthy(*value),
{
    let ok = match json_get(value, "ok") {
        Some(member) => json_as_bool(member) == Some(true),
        None => false,
    };
    let provider = match json_get(value, "provider") {
        Some(member) => match json_as_text(member) {
            Some(text) => text_is(&text, "grok_native"),
            None => false,
        },
        None => false,
    };
    ok && provider
}

} // verus!
