use codex_administrator::skill_sync::{
    classify_destination_snapshot, classify_source_snapshot, read_destination, relative_path_key,
    sha256_bytes, should_ignore_relative_path, validate_conflict_reason, validate_manifest,
    validate_manifest_key, validate_sha256, validate_sync_roots, DestinationState, EntryPlan,
    SkillProjection, SkillProjectionConflict, SkillProjectionManifest, SkillProjectionRecord,
    SkillSyncError, SourceEntryKind, UnsafeSource,
};

const HELLO_SHA: &str = "2cf24dba5fb0a30e26e83b2ac5b9e29e1b161e5c1fa7425e73043362938b9824";
const HELLO2_SHA: &str = "87298cc2f31fba73181ea2a9e6ef10dce21ed95e98bdac9c4e1504ea16f486e4";

fn parts(values: &[&str]) -> Vec<String> {
    values.iter().map(|value| value.to_string()).collect()
}

#[test]
fn ignored_paths_cover_caches_scratch_files_and_the_system_tree() {
    assert!(should_ignore_relative_path(&parts(&[".git", "config"])));
    assert!(should_ignore_relative_path(&parts(&["skill", "Node_Modules", "x.js"])));
    assert!(should_ignore_relative_path(&parts(&[".System", "skill.md"])));
    assert!(should_ignore_relative_path(&parts(&["skill", "Thumbs.db"])));
    assert!(should_ignore_relative_path(&parts(&["skill", "notes.BAK"])));
    assert!(should_ignore_relative_path(&parts(&["skill", "draft~"])));
    assert!(should_ignore_relative_path(&parts(&[])));
    assert!(!should_ignore_relative_path(&parts(&["skill", "SKILL.md"])));
    assert!(!should_ignore_relative_path(&parts(&["skill", ".bak"])));
    assert!(!should_ignore_relative_path(&parts(&["skill", "system", ".system"])));
}

#[test]
fn relative_keys_join_components_with_slashes() {
    assert_eq!(relative_path_key(&parts(&["a", "b", "c.md"])), "a/b/c.md");
    assert_eq!(relative_path_key(&parts(&["only"])), "only");
}

#[test]
fn manifest_keys_are_plain_relative_paths() {
    assert!(validate_manifest_key("skill/SKILL.md"));
    assert!(!validate_manifest_key(""));
    assert!(!validate_manifest_key("skill\\SKILL.md"));
    assert!(!validate_manifest_key("/skill/SKILL.md"));
    assert!(!validate_manifest_key("../skill.md"));
    assert!(!validate_manifest_key("./skill.md"));
    assert!(!validate_manifest_key("skill/../other.md"));
    assert!(!validate_manifest_key("C:skill.md"));
    assert!(!validate_manifest_key("skill/.git/x"));
    assert!(!validate_manifest_key(&"a".repeat(4097)));
}

#[test]
fn digests_and_reasons_have_fixed_shapes() {
    assert!(validate_sha256(HELLO_SHA));
    assert!(!validate_sha256(&HELLO_SHA.to_uppercase()));
    assert!(!validate_sha256("abc"));
    assert!(validate_conflict_reason("destination_modified"));
    assert!(!validate_conflict_reason("Destination"));
    assert!(!validate_conflict_reason(""));
    assert!(!validate_conflict_reason(&"a".repeat(129)));
    assert_eq!(sha256_bytes(b"hello"), HELLO_SHA);
}

#[test]
fn sync_roots_must_be_absolute_and_disjoint() {
    assert_eq!(validate_sync_roots(r"C:\Users\me\.codex", r"C:\Owned\codex-home"), Ok(()));
    assert_eq!(
        validate_sync_roots(r"C:\Users\me\.codex", r"C:\Users\me\.codex\isolated"),
        Err(SkillSyncError::RootsNotDisjoint)
    );
    assert_eq!(
        validate_sync_roots(r"C:\Owned", r"C:\Owned\"),
        Err(SkillSyncError::RootsNotDisjoint)
    );
    assert_eq!(
        validate_sync_roots(r"relative\home", r"C:\Owned"),
        Err(SkillSyncError::RootsNotAbsolute)
    );
    assert_eq!(
        validate_sync_roots(r"C:\Users\me\.codex2", r"C:\Users\me\.codex"),
        Ok(())
    );
}

#[test]
fn stored_manifests_are_checked_in_a_fixed_order() {
    let mut manifest = SkillProjectionManifest::empty();
    assert_eq!(validate_manifest(&manifest), Ok(()));
    manifest.files.insert(
        "skill/A.md".into(),
        SkillProjectionRecord { source_sha256: HELLO_SHA.into(), destination_sha256: HELLO_SHA.into() },
    );
    manifest.files.insert(
        "skill/a.md".into(),
        SkillProjectionRecord { source_sha256: HELLO_SHA.into(), destination_sha256: HELLO_SHA.into() },
    );
    assert_eq!(validate_manifest(&manifest), Err(SkillSyncError::DuplicateManifestKey));
    manifest.files.remove("skill/a.md");
    assert_eq!(validate_manifest(&manifest), Ok(()));
    manifest.conflicts.insert(
        "skill/B.md".into(),
        SkillProjectionConflict { reason: "Bad Reason".into(), source_sha256: None, destination_sha256: None },
    );
    assert_eq!(validate_manifest(&manifest), Err(SkillSyncError::InvalidConflictReason));
    manifest.version = 2;
    assert_eq!(validate_manifest(&manifest), Err(SkillSyncError::UnsupportedManifestVersion));
}

#[test]
fn a_new_file_is_projected_then_kept_then_refreshed() {
    let mut pass = SkillProjection::new(SkillProjectionManifest::empty());
    let plan = pass.plan_entry(&parts(&["skill", "SKILL.md"]), SourceEntryKind::File);
    assert_eq!(plan, EntryPlan::ReadFile { key: "skill/SKILL.md".into() });
    let key = "skill/SKILL.md".to_string();
    assert!(pass.project_source_file(&key, b"hello", DestinationState::Missing));
    assert_eq!(pass.receipt.projected, 1);
    let (manifest, _) = pass.into_parts();
    assert_eq!(
        manifest.files.get("skill/SKILL.md"),
        Some(&SkillProjectionRecord { source_sha256: HELLO_SHA.into(), destination_sha256: HELLO_SHA.into() })
    );

    let mut second = SkillProjection::new(manifest);
    second.plan_entry(&parts(&["skill", "SKILL.md"]), SourceEntryKind::File);
    assert!(!second.project_source_file(&key, b"hello", DestinationState::Regular(HELLO_SHA.into())));
    assert_eq!(second.receipt.unchanged, 1);
    assert!(second.project_source_file(&key, b"hello2", DestinationState::Regular(HELLO_SHA.into())));
    assert_eq!(second.receipt.updated, 1);
    assert_eq!(
        second.manifest.files.get("skill/SKILL.md").map(|record| record.source_sha256.clone()),
        Some(HELLO2_SHA.to_string())
    );
}

#[test]
fn a_locally_modified_projection_becomes_a_conflict() {
    let mut manifest = SkillProjectionManifest::empty();
    manifest.files.insert(
        "skill/SKILL.md".into(),
        SkillProjectionRecord { source_sha256: HELLO_SHA.into(), destination_sha256: HELLO_SHA.into() },
    );
    let mut pass = SkillProjection::new(manifest);
    let key = "skill/SKILL.md".to_string();
    assert!(!pass.project_source_file(&key, b"hello2", DestinationState::Regular(HELLO2_SHA.into())));
    assert_eq!(pass.receipt.conflicts, 1);
    assert_eq!(
        pass.manifest.conflicts.get("skill/SKILL.md"),
        Some(&SkillProjectionConflict {
            reason: "destination_modified".into(),
            source_sha256: Some(HELLO2_SHA.into()),
            destination_sha256: Some(HELLO2_SHA.into()),
        })
    );
}

#[test]
fn an_unmanaged_destination_is_never_overwritten() {
    let mut pass = SkillProjection::new(SkillProjectionManifest::empty());
    let key = "skill/SKILL.md".to_string();
    assert!(!pass.project_source_file(&key, b"hello", DestinationState::Regular(HELLO2_SHA.into())));
    assert_eq!(
        pass.manifest.conflicts.get("skill/SKILL.md").map(|c| c.reason.clone()),
        Some("unmanaged_destination".to_string())
    );
    assert!(pass.manifest.files.get("skill/SKILL.md").is_none());
}

#[test]
fn deleted_sources_remove_only_unmodified_projections() {
    let mut manifest = SkillProjectionManifest::empty();
    for name in ["old/a.md", "old/b.md", "old/c.md"] {
        manifest.files.insert(
            name.into(),
            SkillProjectionRecord { source_sha256: HELLO_SHA.into(), destination_sha256: HELLO_SHA.into() },
        );
    }
    let mut pass = SkillProjection::new(manifest);
    let mut deleted = pass.deleted_keys();
    deleted.sort();
    assert_eq!(deleted, vec!["old/a.md", "old/b.md", "old/c.md"]);
    assert!(pass.settle_deleted_projection(&"old/a.md".to_string(), DestinationState::Regular(HELLO_SHA.into())));
    assert!(!pass.settle_deleted_projection(&"old/b.md".to_string(), DestinationState::Regular(HELLO2_SHA.into())));
    assert!(!pass.settle_deleted_projection(&"old/c.md".to_string(), DestinationState::Missing));
    assert_eq!(pass.receipt.removed, 1);
    assert_eq!(pass.receipt.conflicts, 1);
    assert!(pass.manifest.files.get("old/a.md").is_none());
    assert!(pass.manifest.files.get("old/b.md").is_some());
    assert!(pass.manifest.files.get("old/c.md").is_none());
    assert_eq!(
        pass.manifest.conflicts.get("old/b.md").map(|c| c.reason.clone()),
        Some("source_deleted_destination_modified".to_string())
    );
}

#[test]
fn unsafe_sources_keep_their_projections_as_conflicts() {
    let mut manifest = SkillProjectionManifest::empty();
    for name in ["linked/a.md", "linked/deep/b.md", "linkedother/c.md"] {
        manifest.files.insert(
            name.into(),
            SkillProjectionRecord { source_sha256: HELLO_SHA.into(), destination_sha256: HELLO_SHA.into() },
        );
    }
    let mut pass = SkillProjection::new(manifest);
    let plan = pass.plan_entry(&parts(&["linked"]), SourceEntryKind::ReparsePoint);
    assert_eq!(
        plan,
        EntryPlan::PreserveUnsafe { key: "linked".into(), source: UnsafeSource::ReparsePoint }
    );
    let mut managed = pass.managed_keys("linked");
    managed.sort();
    assert_eq!(managed, vec!["linked/a.md", "linked/deep/b.md"]);
    for key in &managed {
        pass.preserve_managed_projection(key, UnsafeSource::ReparsePoint, DestinationState::Regular(HELLO_SHA.into()));
    }
    pass.skip_unsafe_source();
    assert_eq!(pass.receipt.conflicts, 2);
    assert_eq!(pass.receipt.skipped, 1);
    assert_eq!(pass.deleted_keys(), vec!["linkedother/c.md"]);
    assert_eq!(
        pass.manifest.conflicts.get("linked/a.md").map(|c| c.reason.clone()),
        Some("source_reparse_point".to_string())
    );
    assert_eq!(UnsafeSource::Unstable.reason(), "source_changed_during_projection");
}

#[test]
fn ignored_entries_are_counted_as_skipped() {
    let mut pass = SkillProjection::new(SkillProjectionManifest::empty());
    assert_eq!(pass.plan_entry(&parts(&["skill", ".git"]), SourceEntryKind::Directory), EntryPlan::Skip);
    assert_eq!(pass.plan_entry(&parts(&["skill"]), SourceEntryKind::Directory), EntryPlan::Descend);
    assert_eq!(pass.receipt.skipped, 1);
}

#[test]
fn snapshots_classify_sources_and_destinations() {
    assert_eq!(classify_source_snapshot(true, false, 1, 10), Some(UnsafeSource::ReparsePoint));
    assert_eq!(classify_source_snapshot(false, false, 2, 10), Some(UnsafeSource::HardLink));
    assert_eq!(classify_source_snapshot(false, false, 1, 64 * 1024 * 1024 + 1), Some(UnsafeSource::TooLarge));
    assert_eq!(classify_source_snapshot(false, false, 1, 10), None);
    assert_eq!(classify_destination_snapshot(false, true, 1), Some(DestinationState::NotRegular));
    assert_eq!(classify_destination_snapshot(false, false, 1), None);
    assert_eq!(read_destination(2, b"hello"), DestinationState::HardLink(HELLO_SHA.into()));
    assert_eq!(read_destination(1, b"hello"), DestinationState::Regular(HELLO_SHA.into()));
}
