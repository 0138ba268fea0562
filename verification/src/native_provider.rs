//! The native Grok provider entry of the official configuration: what it may say, and how
//! the shell environment policy keeps its credential out of tool processes.

use vstd::prelude::*;

use crate::compatibility::{ascii_lower, eq_ignore_ascii_case};
use crate::launcher_settings::{provider_base_url_for_action_path, provider_base_url_outcome};
use crate::model_discovery::ModelError;
use crate::digest::{hex_lower, sha256_digest};
use crate::skill_sync::sha256_bytes;
use crate::text::chars_of;
use vstd::string::StringSliceAdditionalSpecFns;

verus! {

/// The id under which the provider is configured.
pub const GROK_NATIVE_PROVIDER_ID: &'static str = "grok_native";

/// The longest provider credential variable name, in bytes.
pub const MAX_ENV_KEY_BYTES: usize = 128;

/// Why a provider entry or the shell environment policy is refused.
#[derive(Debug, Clone, Copy, PartialEq, Eq, Structural)]
pub enum ProviderError {
    Endpoint(ModelError),
    InvalidEnvKey,
    ReservedEnvKey,
    SetNotTable,
    SetReintroducesSecret,
    ExcludeNotArray,
    ExcludeNotStrings,
    /// The configuration is not TOML.
    InvalidConfig,
    /// `model_providers` is not a table.
    ProvidersNotTable,
    /// `model_providers.grok_native` is not a table.
    ProviderNotTable,
    /// `shell_environment_policy` is not a table.
    PolicyNotTable,
}

/// The provider entry: its endpoint, the variable that holds its credential, and whether
/// it speaks websockets.
#[derive(Debug, Clone, PartialEq, Eq)]
pub struct GrokNativeProviderConfig {
    pub base_url: String,
    pub action_path: String,
    pub env_key: String,
    pub supports_websockets: bool,
}

/// A credential variable name: 1 to 128 characters, uppercase ASCII letters, digits and
/// `_`, not starting with a digit.
pub open spec fn is_env_key(key: Seq<char>) -> bool {
    &&& 0 < key.len() <= MAX_ENV_KEY_BYTES
    &&& (('A' <= key[0] && key[0] <= 'Z') || key[0] == '_')
    &&& forall|i: int| 0 <= i < key.len() ==> is_env_key_char(#[trigger] key[i])
}

pub open spec fn is_env_key_char(c: char) -> bool {
    ('A' <= c && c <= 'Z') || ('0' <= c && c <= '9') || c == '_'
}

/// Why the entry is refused, if it is: its endpoint first, then its variable name, which
/// must not be the one the official host keeps for itself.
pub open spec fn provider_error(config: &GrokNativeProviderConfig) -> Option<ProviderError> {
    match provider_base_url_outcome(config.base_url@, config.action_path@) {
        Err(e) => Some(ProviderError::Endpoint(e)),
        Ok(_) => if !is_env_key(config.env_key@) {
            Some(ProviderError::InvalidEnvKey)
        } else if config.env_key@ == "OPENAI_API_KEY"@ {
            Some(ProviderError::ReservedEnvKey)
        } else {
            None
        },
    }
}

fn valid_env_key(key: &str) -> (result: bool)
    ensures
        result == is_env_key(key@),
{
    let chars = chars_of(key);
    if chars.len() == 0 || chars.len() > MAX_ENV_KEY_BYTES {
        return false;
    }
    let first = chars[0];
    if !(('A' <= first && first <= 'Z') || first == '_') {
        return false;
    }
    for i in 0..chars.len()
        invariant
            chars@ == key@,
            forall|t: int| 0 <= t < i ==> is_env_key_char(#[trigger] chars@[t]),
    {
        let c = chars[i];
        if !(('A' <= c && c <= 'Z') || ('0' <= c && c <= '9') || c == '_') {
            proof {
                assert(!is_env_key_char(key@[i as int]));
            }
            return false;
        }
    }
    true
}

impl GrokNativeProviderConfig {
    /// Checks the entry's endpoint and credential variable.
    pub fn validate(&self) -> (result: Result<(), ProviderError>)
        ensures
            match provider_error(self) {
                Some(e) => result == Err::<(), ProviderError>(e),
                None => result is Ok,
            },
    {
        if let Err(e) = provider_base_url_for_action_path(self.base_url.as_str(), self.action_path.as_str()) {
            return Err(ProviderError::Endpoint(e));
        }
        if !valid_env_key(self.env_key.as_str()) {
            return Err(ProviderError::InvalidEnvKey);
        }
        let key = chars_of(self.env_key.as_str());
        let reserved = chars_of("OPENAI_API_KEY");
        if crate::text::chars_equal(key.as_slice(), reserved.as_slice()) {
            return Err(ProviderError::ReservedEnvKey);
        }
        Ok(())
    }
}

/// What the policy's `set` field holds.
#[derive(Debug, Clone, PartialEq, Eq)]
pub enum PolicySetField {
    Absent,
    /// A table, or an inline table, with these keys.
    Table(Vec<String>),
    NotTable,
}

/// What the policy's `exclude` field holds.
#[derive(Debug, Clone, PartialEq, Eq)]
pub enum PolicyExcludeField {
    Absent,
    /// An array: each entry's text, or `None` when it is not a string.
    Array(Vec<Option<String>>),
    NotArray,
}

pub open spec fn same_name(a: Seq<char>, b: Seq<char>) -> bool {
    ascii_lower(a) == ascii_lower(b)
}

pub open spec fn excluded(entries: Seq<Option<String>>, key: Seq<char>) -> bool {
    exists|i: int| 0 <= i < entries.len() && #[trigger] entries[i] is Some && same_name(entries[i].unwrap()@, key)
}

/// What the shell environment guard does to the policy: refuse it, or add the credential
/// variable to the excluded names (`true`) unless it is excluded already (`false`).
pub open spec fn set_refusal(set: PolicySetField, key: Seq<char>) -> Option<ProviderError> {
    match set {
        PolicySetField::NotTable => Some(ProviderError::SetNotTable),
        PolicySetField::Table(keys) => if exists|i: int| 0 <= i < keys@.len() && same_name((#[trigger] keys@[i])@, key) {
            Some(ProviderError::SetReintroducesSecret)
        } else {
            None
        },
        PolicySetField::Absent => None,
    }
}

pub open spec fn shell_guard_outcome(set: PolicySetField, exclude: PolicyExcludeField, key: Seq<char>) -> Result<bool, ProviderError> {
    match set_refusal(set, key) {
        Some(e) => Err(e),
        None => match exclude {
            PolicyExcludeField::NotArray => Err(ProviderError::ExcludeNotArray),
            PolicyExcludeField::Absent => Ok(true),
            PolicyExcludeField::Array(entries) => if excluded(entries@, key) {
                Ok(false)
            } else if exists|i: int| 0 <= i < entries@.len() && #[trigger] entries@[i] is None {
                Err(ProviderError::ExcludeNotStrings)
            } else {
                Ok(true)
            },
        },
    }
}

/// Decides how the shell environment policy keeps the credential variable `env_key` out
/// of tool processes.
pub fn plan_shell_environment_guard(set: &PolicySetField, exclude: &PolicyExcludeField, env_key: &str) -> (result: Result<
    bool,
    ProviderError,
>)
    ensures
        result == shell_guard_outcome(*set, *exclude, env_key@),
{
    let key = chars_of(env_key);
    match set {
        PolicySetField::NotTable => return Err(ProviderError::SetNotTable),
        PolicySetField::Table(keys) => {
            for i in 0..keys.len()
                invariant
                    key@ == env_key@,
                    *set == PolicySetField::Table(*keys),
                    forall|t: int| 0 <= t < i ==> !same_name((#[trigger] keys@[t])@, env_key@),
            {
                let name = chars_of(keys[i].as_str());
                if eq_ignore_ascii_case(name.as_slice(), key.as_slice()) {
                    proof {
                        assert(same_name(keys@[i as int]@, env_key@));
                        match set {
                            PolicySetField::Table(k) => {
                                assert(*k == *keys);
                                assert(same_name(k@[i as int]@, env_key@));
                            },
                            _ => {},
                        }
                        assert(set_refusal(*set, env_key@) == Some(ProviderError::SetReintroducesSecret));
                    }
                    return Err(ProviderError::SetReintroducesSecret);
                }
            }
        },
        PolicySetField::Absent => {},
    }
    match exclude {
        PolicyExcludeField::NotArray => Err(ProviderError::ExcludeNotArray),
        PolicyExcludeField::Absent => Ok(true),
        PolicyExcludeField::Array(entries) => {
            for i in 0..entries.len()
                invariant
                    key@ == env_key@,
                    set_refusal(*set, env_key@) is None,
                    *exclude == PolicyExcludeField::Array(*entries),
                    forall|t: int| 0 <= t < i ==> !(#[trigger] entries@[t] is Some && same_name(entries@[t].unwrap()@, env_key@)),
            {
                match &entries[i] {
                    Some(entry) => {
                        let name = chars_of(entry.as_str());
                        if eq_ignore_ascii_case(name.as_slice(), key.as_slice()) {
                            proof {
                                assert(entries@[i as int] is Some && same_name(entries@[i as int].unwrap()@, env_key@));
                            }
                            return Ok(false);
                        }
                    },
                    None => {},
                }
            }
            for i in 0..entries.len()
                invariant
                    set_refusal(*set, env_key@) is None,
                    *exclude == PolicyExcludeField::Array(*entries),
                    !excluded(entries@, env_key@),
                    forall|t: int| 0 <= t < i ==> !(#[trigger] entries@[t] is None),
            {
                if entries[i].is_none() {
                    proof {
                        assert(entries@[i as int] is None);
                    }
                    return Err(ProviderError::ExcludeNotStrings);
                }
            }
            Ok(true)
        },
    }
}

/// What installing the provider did: whether the configuration changed, and the digest of
/// the configuration it now holds.
#[derive(Debug, Clone, PartialEq, Eq)]
pub struct NativeProviderInstallReceipt {
    pub updated: bool,
    pub sha256: String,
}

/// The receipt of rendering `rendered` over the configuration text `existing`: updated
/// when they differ, with the digest of the rendered text's bytes.
pub fn provider_install_receipt(existing: &str, rendered: &str) -> (result: NativeProviderInstallReceipt)
    ensures
        result.updated == (existing@ != rendered@),
        result.sha256@ == hex_lower(sha256_digest(rendered.spec_bytes())),
{
    let updated = !crate::text::chars_equal(chars_of(existing).as_slice(), chars_of(rendered).as_slice());
    NativeProviderInstallReceipt { updated, sha256: sha256_bytes(rendered.as_bytes()) }
}

} // verus!
