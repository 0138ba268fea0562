//! The decisions of an injection run that come before any process or file is touched: the
//! requested renderer addons, the provider of a direct run, and the continuity hook
//! command.

use vstd::prelude::*;

use crate::native_provider::{provider_error, GrokNativeProviderConfig, ProviderError};
use crate::renderer_addons::{is_addon_id, settings_outcome, RendererAddonError, RendererAddonSettings};
use crate::winpath::is_absolute_path;
use crate::strings::{push_chars, string_from_chars};
use crate::supervisor::SupervisorMode;
use crate::text::{char_is_control, chars_of, is_control_char, slice_chars};

verus! {

/// The most renderer addons one run may request.
pub const MAX_REQUESTED_ADDONS: usize = 16;

/// Why an injection run is refused before it starts.
#[derive(Debug, Clone, Copy, PartialEq, Eq, Structural)]
pub enum InjectError {
    TooManyAddons,
    AddonWithoutPath,
    Addon(RendererAddonError),
    DuplicateAddon,
    MissingBaseUrl,
    Provider(ProviderError),
    MissingCredential,
    SyncRequiresRetainedRoot,
    UnsafeHookPath,
}

/// The index of the first `=` in `s`, if any.
pub open spec fn first_equals(s: Seq<char>) -> Option<int> {
    if s.contains('=') {
        s.index_of_first('=')
    } else {
        None
    }
}

/// The setting an `ID=PATH` request names: an enabled addon with that id and checkout.
pub open spec fn requested_setting(value: Seq<char>) -> Option<(Seq<char>, Seq<char>)> {
    match first_equals(value) {
        Some(k) => Some((value.take(k), value.skip(k + 1))),
        None => None,
    }
}

/// Why an enabled addon with this id and checkout is refused, if it is.
pub open spec fn requested_setting_error(id: Seq<char>, root: Seq<char>) -> Option<RendererAddonError> {
    if !is_addon_id(id) {
        Some(RendererAddonError::InvalidId)
    } else if !is_absolute_path(root) {
        Some(RendererAddonError::InvalidSourceRoot)
    } else {
        None
    }
}

/// Why the first `count` requests, taken in order, are refused: for each in turn a missing
/// `=`, an invalid setting, or an id already requested.
pub open spec fn request_error_upto(values: Seq<Seq<char>>, count: int) -> Option<InjectError>
    decreases count,
{
    if count <= 0 {
        None
    } else {
        match request_error_upto(values, count - 1) {
            Some(e) => Some(e),
            None => match requested_setting(values[count - 1]) {
                None => Some(InjectError::AddonWithoutPath),
                Some((id, root)) => match requested_setting_error(id, root) {
                    Some(e) => Some(InjectError::Addon(e)),
                    None => if exists|j: int| 0 <= j < count - 1 && #[trigger] requested_id(values[j]) == Some(id) {
                        Some(InjectError::DuplicateAddon)
                    } else {
                        None
                    },
                },
            },
        }
    }
}

pub open spec fn requested_id(value: Seq<char>) -> Option<Seq<char>> {
    match requested_setting(value) {
        Some((id, _)) => Some(id),
        None => None,
    }
}

/// Why the requests are refused, if they are: more than 16, or the first refusal in order.
pub open spec fn requests_error(values: Seq<Seq<char>>) -> Option<InjectError> {
    if values.len() > MAX_REQUESTED_ADDONS {
        Some(InjectError::TooManyAddons)
    } else {
        request_error_upto(values, values.len() as int)
    }
}

pub open spec fn texts(values: Seq<String>) -> Seq<Seq<char>> {
    values.map_values(|v: String| v@)
}

fn split_request(value: &str) -> (result: Option<(String, String)>)
    ensures
        match result {
            Some((id, root)) => requested_setting(value@) == Some((id@, root@)),
            None => requested_setting(value@) is None,
        },
{
    let chars = chars_of(value);
    let n = chars.len();
    let mut k: usize = 0;
    while k < n && chars[k] != '='
        invariant
            k <= n == chars@.len(),
            chars@ == value@,
            forall|t: int| 0 <= t < k ==> chars@[t] != '=',
        decreases n - k,
    {
        k += 1;
    }
    if k == n {
        proof {
            assert(!value@.contains('='));
        }
        return None;
    }
    proof {
        assert(value@.contains('='));
        value@.index_of_first_ensures('=');
        let f = value@.index_of_first('=').unwrap();
        assert(f == k) by {
            if f < k {
                assert(chars@[f] != '=');
            }
            if f > k {
                assert(value@[k as int] == '=');
            }
        }
    }
    let id = string_from_chars(slice_chars(chars.as_slice(), 0, k).as_slice());
    let root = string_from_chars(slice_chars(chars.as_slice(), k + 1, n).as_slice());
    proof {
        assert(value@.subrange(0, k as int) =~= value@.take(k as int));
        assert(value@.subrange(k + 1, n as int) =~= value@.skip(k + 1));
    }
    Some((id, root))
}

/// The addons a run requests as `ID=PATH` values: each enabled, checked, and requested once.
pub fn parse_renderer_addon_settings(values: &Vec<String>) -> (result: Result<Vec<RendererAddonSettings>, InjectError>)
    ensures
        match requests_error(texts(values@)) {
            Some(e) => result == Err::<Vec<RendererAddonSettings>, InjectError>(e),
            None => result matches Ok(settings) && settings@.len() == values@.len() && forall|i: int| #![trigger settings@[i]] 0 <= i < values@.len()
                ==> {
                &&& settings@[i].enabled
                &&& requested_setting(values@[i]@) == Some((settings@[i].id@, settings@[i].source_root@))
            },
        },
{
    let ghost vs = texts(values@);
    if values.len() > MAX_REQUESTED_ADDONS {
        return Err(InjectError::TooManyAddons);
    }
    let mut settings: Vec<RendererAddonSettings> = Vec::new();
    for i in 0..values.len()
        invariant
            vs == texts(values@),
            values@.len() <= MAX_REQUESTED_ADDONS,
            request_error_upto(vs, i as int) is None,
            settings@.len() == i,
            forall|t: int| #![trigger settings@[t]] 0 <= t < i ==> {
                &&& settings@[t].enabled
                &&& requested_setting(vs[t]) == Some((settings@[t].id@, settings@[t].source_root@))
            },
    {
        proof {
            assert(vs[i as int] == values@[i as int]@);
        }
        let (id, root) = match split_request(values[i].as_str()) {
            Some(parts) => parts,
            None => {
                proof {
                    lemma_request_error_extends(vs, i as int + 1);
                }
                return Err(InjectError::AddonWithoutPath);
            },
        };
        let setting = RendererAddonSettings { id, enabled: true, source_root: root };
        if let Err(e) = setting.validate() {
            proof {
                lemma_request_error_extends(vs, i as int + 1);
            }
            return Err(InjectError::Addon(e));
        }
        let id_chars = chars_of(setting.id.as_str());
        let mut duplicate = false;
        for j in 0..settings.len()
            invariant
                settings@.len() == i,
                vs == texts(values@),
                forall|t: int| #![trigger settings@[t]] 0 <= t < i ==> {
                    &&& settings@[t].enabled
                    &&& requested_setting(vs[t]) == Some((settings@[t].id@, settings@[t].source_root@))
                },
                id_chars@ == setting.id@,
                duplicate == exists|t: int| 0 <= t < j && #[trigger] settings@[t].id@ == setting.id@,
        {
            let other = chars_of(settings[j].id.as_str());
            if crate::text::chars_equal(other.as_slice(), id_chars.as_slice()) {
                duplicate = true;
            }
        }
        proof {
            assert(duplicate == exists|j: int| 0 <= j < i && #[trigger] requested_id(vs[j]) == Some(setting.id@)) by {
                if duplicate {
                    let t = choose|t: int| 0 <= t < i && #[trigger] settings@[t].id@ == setting.id@;
                    assert(requested_id(vs[t]) == Some(setting.id@));
                }
                if exists|j: int| 0 <= j < i && #[trigger] requested_id(vs[j]) == Some(setting.id@) {
                    let t = choose|j: int| 0 <= j < i && #[trigger] requested_id(vs[j]) == Some(setting.id@);
                    assert(settings@[t].id@ == setting.id@);
                }
            }
        }
        if duplicate {
            proof {
                lemma_request_error_extends(vs, i as int + 1);
            }
            return Err(InjectError::DuplicateAddon);
        }
        let ghost pushed = setting;
        settings.push(setting);
        proof {
            assert(settings@[i as int] == pushed);
            assert(request_error_upto(vs, i + 1) is None);
        }
    }
    Ok(settings)
}

proof fn lemma_request_error_extends(values: Seq<Seq<char>>, count: int)
    requires
        0 <= count <= values.len(),
        request_error_upto(values, count) is Some,
    ensures
        request_error_upto(values, values.len() as int) == request_error_upto(values, count),
    decreases values.len() - count,
{
    if count < values.len() {
        lemma_request_error_extends(values, count + 1);
    }
}


/// The provider entry a direct run asks for.
pub open spec fn requested_provider(base_url: String, action_path: String, env_key: String) -> GrokNativeProviderConfig {
    GrokNativeProviderConfig { base_url, action_path, env_key, supports_websockets: false }
}

/// The provider of a direct run: none when no model is requested; otherwise the entry for
/// the requested endpoint, which must be given and valid, with its credential variable set.
pub fn direct_provider(
    models_requested: bool,
    base_url: Option<String>,
    action_path: String,
    env_key: String,
    credential_set: bool,
) -> (result: Result<Option<GrokNativeProviderConfig>, InjectError>)
    ensures
        !models_requested ==> result == Ok::<Option<GrokNativeProviderConfig>, InjectError>(None),
        models_requested && base_url is None ==> result == Err::<Option<GrokNativeProviderConfig>, InjectError>(
            InjectError::MissingBaseUrl,
        ),
        models_requested && base_url is Some ==> ({
            let config = requested_provider(base_url.unwrap(), action_path, env_key);
            match provider_error(&config) {
                Some(e) => result == Err::<Option<GrokNativeProviderConfig>, InjectError>(InjectError::Provider(e)),
                None => if credential_set {
                    result == Ok::<Option<GrokNativeProviderConfig>, InjectError>(Some(config))
                } else {
                    result == Err::<Option<GrokNativeProviderConfig>, InjectError>(InjectError::MissingCredential)
                },
            }
        }),
{
    if !models_requested {
        return Ok(None);
    }
    let base_url = match base_url {
        Some(url) => url,
        None => return Err(InjectError::MissingBaseUrl),
    };
    let config = GrokNativeProviderConfig { base_url, action_path, env_key, supports_websockets: false };
    if let Err(e) = config.validate() {
        return Err(InjectError::Provider(e));
    }
    if !credential_set {
        return Err(InjectError::MissingCredential);
    }
    Ok(Some(config))
}

/// How a direct run supervises: configured with a provider, else management only.
pub fn supervisor_mode_for(provider: &Option<GrokNativeProviderConfig>) -> (result: SupervisorMode)
    ensures
        result == if provider is Some {
            SupervisorMode::Configured
        } else {
            SupervisorMode::ManagementOnly
        },
{
    if provider.is_some() {
        SupervisorMode::Configured
    } else {
        SupervisorMode::ManagementOnly
    }
}

/// Native state synchronization keeps its state in the instance root, so it needs the
/// root retained.
pub fn require_retained_root_for_sync(any_sync: bool, retain_instance_root: bool) -> (result: Result<(), InjectError>)
    ensures
        result is Err <==> any_sync && !retain_instance_root,
        result is Err ==> result == Err::<(), InjectError>(InjectError::SyncRequiresRetainedRoot),
{
    if any_sync && !retain_instance_root {
        Err(InjectError::SyncRequiresRetainedRoot)
    } else {
        Ok(())
    }
}

/// A path that can stand quoted in a hook command: no `"` and no control character.
pub open spec fn quotable(text: Seq<char>) -> bool {
    forall|i: int| 0 <= i < text.len() ==> (#[trigger] text[i] != '"' && !is_control_char(text[i]))
}

/// The command the official host runs for the continuity hook.
pub open spec fn hook_command_text(executable: Seq<char>, manifest: Seq<char>) -> Seq<char> {
    "\""@ + executable + "\" session-continuity-hook --manifest \""@ + manifest + "\""@
}

fn quotable_text(text: &str) -> (result: bool)
    ensures
        result == quotable(text@),
{
    let chars = chars_of(text);
    for i in 0..chars.len()
        invariant
            chars@ == text@,
            forall|t: int| 0 <= t < i ==> (#[trigger] chars@[t] != '"' && !is_control_char(chars@[t])),
    {
        if chars[i] == '"' || char_is_control(chars[i]) {
            proof {
                assert(!(text@[i as int] != '"' && !is_control_char(text@[i as int])));
            }
            return false;
        }
    }
    true
}

/// The continuity hook command for the helper at `executable` and the manifest at
/// `manifest`, both quoted; refused when either path cannot be quoted.
pub fn continuity_hook_command(executable: &str, manifest: &str) -> (result: Result<String, InjectError>)
    ensures
        match result {
            Ok(command) => quotable(executable@) && quotable(manifest@) && command@ == hook_command_text(
                executable@,
                manifest@,
            ),
            Err(e) => !(quotable(executable@) && quotable(manifest@)) && e == InjectError::UnsafeHookPath,
        },
{
    if !quotable_text(executable) || !quotable_text(manifest) {
        return Err(InjectError::UnsafeHookPath);
    }
    let mut command = String::new();
    let ghost empty = command@;
    push_chars(&mut command, chars_of("\"").as_slice());
    push_chars(&mut command, chars_of(executable).as_slice());
    push_chars(&mut command, chars_of("\" session-continuity-hook --manifest \"").as_slice());
    push_chars(&mut command, chars_of(manifest).as_slice());
    push_chars(&mut command, chars_of("\"").as_slice());
    proof {
        assert(command@ =~= hook_command_text(executable@, manifest@));
    }
    Ok(command)
}

} // verus!
