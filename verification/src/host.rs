//! The host adapters that can carry the renderer bootstrap.

use vstd::prelude::*;
use vstd::string::StringSliceAdditionalSpecFns;

use crate::digest::{hex_lower, sha256_digest};
use crate::skill_sync::sha256_bytes;

verus! {

/// The Codex++ user-script key under which the bootstrap is enabled.
pub const CODEX_PLUS_BOOTSTRAP_KEY: &'static str = "user:codex-administrator-bootstrap.js";

/// What removing the Codex++ bootstrap changed.
#[derive(Debug, Clone, Copy, PartialEq, Eq)]
pub struct CodexPlusRemovalReceipt {
    pub script_removed: bool,
    pub config_updated: bool,
}

/// The host that renders the official interface.
#[derive(Debug, Clone, Copy, PartialEq, Eq, Structural)]
pub enum HostAdapterKind {
    Direct,
    CodexPlusPlus,
}

/// How the bootstrap reaches the renderer.
#[derive(Debug, Clone, Copy, PartialEq, Eq, Structural)]
pub enum InjectionStrategy {
    ProjectOwnedCdp,
    ExternalUserScript,
}

impl HostAdapterKind {
    /// The direct host is driven over a project-owned CDP port; Codex++ loads an external
    /// user script.
    pub fn injection_strategy(self) -> (result: InjectionStrategy)
        ensures
            result == match self {
                HostAdapterKind::Direct => InjectionStrategy::ProjectOwnedCdp,
                HostAdapterKind::CodexPlusPlus => InjectionStrategy::ExternalUserScript,
            },
    {
        match self {
            HostAdapterKind::Direct => InjectionStrategy::ProjectOwnedCdp,
            HostAdapterKind::CodexPlusPlus => InjectionStrategy::ExternalUserScript,
        }
    }
}

/// A prepared Codex++ host: where its bootstrap script was installed and the digest of the
/// installed script.
#[derive(Debug, Clone, PartialEq, Eq)]
pub struct CodexPlusPreparation {
    pub bootstrap_path: String,
    pub sha256: String,
}

/// The preparation that installing the bootstrap `script` at `bootstrap_path` amounts to.
pub fn codex_plus_preparation(bootstrap_path: String, script: &str) -> (result: CodexPlusPreparation)
    ensures
        result.bootstrap_path@ == bootstrap_path@,
        result.sha256@ == hex_lower(sha256_digest(script.spec_bytes())),
{
    CodexPlusPreparation { bootstrap_path, sha256: sha256_bytes(script.as_bytes()) }
}

} // verus!
