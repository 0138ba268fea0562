use codex_administrator::compatibility::confirm_host_identity;
use codex_administrator::compatibility::HostIdentity;
use codex_administrator::compatibility::{
    normalize_sha256, CompatibilityDecision, CompatibilityError, CompatibilityManifest,
    CompatibilityManifestEntry, CompatibilityPolicy, PROJECT_VERSION,
};
use codex_administrator::host::{HostAdapterKind, InjectionStrategy};
use codex_administrator::mode::{AgentMode, ModeError, ModeState};

const DIGEST: &str = "ABCDEF0123456789abcdef0123456789ABCDEF0123456789abcdef0123456789";

#[test]
fn digests_are_trimmed_and_lowercased() {
    assert_eq!(normalize_sha256(&format!(" {DIGEST}\n")), Ok(DIGEST.to_lowercase()));
    assert_eq!(
        normalize_sha256("abc"),
        Err(CompatibilityError::InvalidHostIdentity)
    );
}

#[test]
fn injection_follows_the_request_only_for_allowed_hosts() {
    let policy = CompatibilityPolicy::new()
        .allow_host_sha256(HostAdapterKind::Direct, DIGEST)
        .unwrap();
    let decision = policy.evaluate(
        HostAdapterKind::Direct,
        Some(&DIGEST.to_lowercase()),
        AgentMode::GrokNativeModel,
    );
    assert_eq!(decision, CompatibilityDecision::Enabled(AgentMode::GrokNativeModel));
    assert!(decision.injection_enabled());
    assert_eq!(decision.effective_mode(), AgentMode::GrokNativeModel);

    let other = policy.evaluate(
        HostAdapterKind::CodexPlusPlus,
        Some(DIGEST),
        AgentMode::GrokNativeModel,
    );
    assert_eq!(
        other,
        CompatibilityDecision::NativeOnly {
            requested: AgentMode::GrokNativeModel,
            reason: "unverified_host_identity".into()
        }
    );
    assert!(!other.injection_enabled());
    assert_eq!(other.effective_mode(), AgentMode::NativeGptMain);
    assert!(!policy
        .evaluate(HostAdapterKind::Direct, None, AgentMode::GrokNativeModel)
        .injection_enabled());
}

fn entry(version: &str) -> CompatibilityManifestEntry {
    CompatibilityManifestEntry {
        adapter: HostAdapterKind::CodexPlusPlus,
        sha256: DIGEST.into(),
        project_version: version.into(),
        bootstrap_version: 1,
        evidence_sha256: DIGEST.into(),
    }
}

#[test]
fn manifest_entries_become_the_policy() {
    let manifest = CompatibilityManifest {
        schema_version: 1,
        hosts: vec![entry(PROJECT_VERSION)],
    };
    let policy = manifest.into_policy().unwrap();
    assert!(policy
        .evaluate(HostAdapterKind::CodexPlusPlus, Some(DIGEST), AgentMode::GrokNativeModel)
        .injection_enabled());
}

#[test]
fn manifest_entries_for_other_versions_are_refused() {
    let manifest = CompatibilityManifest {
        schema_version: 1,
        hosts: vec![entry("9.9.9")],
    };
    assert_eq!(manifest.validate(), Ok(()));
    assert_eq!(manifest.into_policy().err(), Some(CompatibilityError::ProjectVersionMismatch));
}

#[test]
fn host_adapters_choose_their_injection_strategy() {
    assert_eq!(HostAdapterKind::Direct.injection_strategy(), InjectionStrategy::ProjectOwnedCdp);
    assert_eq!(
        HostAdapterKind::CodexPlusPlus.injection_strategy(),
        InjectionStrategy::ExternalUserScript
    );
}

#[test]
fn mode_revision_counts_only_changes() {
    let mut state = ModeState::default();
    state.set_mode(AgentMode::NativeGptMain);
    assert_eq!(state.revision, 0);
    state.set_mode(AgentMode::GrokNativeModel);
    assert_eq!(state.revision, 1);
    assert_eq!(state.link_task("  task-1 "), Ok(()));
    assert_eq!(state.task_id.as_deref(), Some("task-1"));
    assert_eq!(state.revision, 2);
    assert_eq!(state.link_task("task-1"), Ok(()));
    assert_eq!(state.revision, 2);
    assert_eq!(state.link_task("   "), Err(ModeError::BlankTaskId));
    assert_eq!(state.link_task(&"t".repeat(129)), Err(ModeError::TaskIdTooLong));
    assert_eq!(state.revision, 2);
}

#[test]
fn host_identity_is_the_digest_of_the_executable() {
    let identity = HostIdentity::from_executable(HostAdapterKind::CodexPlusPlus, b"abc");
    assert_eq!(identity.sha256, "ba7816bf8f01cfea414140de5dae2223b00361a396177a9cb410ff61f20015ad");
    assert!(identity.matches_executable(b"abc"));
    assert!(!identity.matches_executable(b"abd"));
}

#[test]
fn a_host_that_changed_before_launch_runs_natively() {
    let enabled = CompatibilityDecision::Enabled(AgentMode::GrokNativeModel);
    let (decision, remove) = confirm_host_identity(enabled.clone(), true, false);
    assert!(remove);
    assert_eq!(
        decision,
        CompatibilityDecision::NativeOnly {
            requested: AgentMode::GrokNativeModel,
            reason: "host_identity_changed_before_launch".into()
        }
    );
    assert!(!decision.injection_enabled());
    assert_eq!(confirm_host_identity(enabled.clone(), true, true), (enabled.clone(), false));
    assert_eq!(confirm_host_identity(enabled.clone(), false, false), (enabled, false));
}
