use codex_administrator::host::HostAdapterKind;
use codex_administrator::renderer_addons::{
    load_addon_script, prepare_renderer_addons, valid_addon_id, AddonLoadError,
    RendererAddonAsset, RendererAddonAssetEncoding, RendererAddonError, RendererAddonLifecycle,
    RendererAddonManifest, RendererAddonPolicy, RendererAddonRevision, RendererAddonSettings,
    RendererAddonSourceReads, RendererAddonState, RendererAddonSubstitution,
};
use sha2::{Digest, Sha256};

fn sha(bytes: &[u8]) -> String {
    format!("{:x}", Sha256::digest(bytes))
}

fn asset(path: &str, content: &[u8]) -> RendererAddonAsset {
    RendererAddonAsset {
        path: path.into(),
        sha256: sha(content).to_uppercase(),
        max_bytes: 1024,
    }
}

const ENTRY: &[u8] = b"main(__DATA__, __IMG__);";
const DATA: &[u8] = b"he said \"hi\"";
const IMG: &[u8] = &[1, 2, 3];

fn revision(id: &str, load_order: u16) -> RendererAddonRevision {
    RendererAddonRevision {
        id: id.into(),
        display_name: format!("Addon {id}"),
        project_revision: format!("rev-{id}"),
        distribution: "external_checkout_only".into(),
        load_order,
        host_adapters: vec![HostAdapterKind::Direct],
        exclusive_slots: vec![],
        conflicts_with: vec![],
        entrypoint: asset("dist/main.js", ENTRY),
        substitutions: vec![
            RendererAddonSubstitution {
                placeholder: "__DATA__".into(),
                encoding: RendererAddonAssetEncoding::JsonUtf8,
                media_type: None,
                asset: asset("dist/data.txt", DATA),
            },
            RendererAddonSubstitution {
                placeholder: "__IMG__".into(),
                encoding: RendererAddonAssetEncoding::DataUrlBase64,
                media_type: Some("image/png".into()),
                asset: asset("dist/img.png", IMG),
            },
        ],
        lifecycle: RendererAddonLifecycle {
            state_key: "__addonState".into(),
            dispose_method: "dispose".into(),
        },
    }
}

fn reads(id: &str) -> RendererAddonSourceReads {
    RendererAddonSourceReads {
        id: id.into(),
        entrypoint: Some(ENTRY.to_vec()),
        substitutions: vec![Some(DATA.to_vec()), Some(IMG.to_vec())],
    }
}

fn setting(id: &str, enabled: bool) -> RendererAddonSettings {
    RendererAddonSettings {
        id: id.into(),
        enabled,
        source_root: r"C:\checkouts\addon".into(),
    }
}

fn policy(revisions: Vec<RendererAddonRevision>) -> RendererAddonPolicy {
    RendererAddonPolicy::from_manifest(RendererAddonManifest {
        schema_version: 2,
        addons: revisions,
    })
    .unwrap()
}

#[test]
fn addon_ids_are_short_lowercase_slugs() {
    assert!(valid_addon_id("theme-2"));
    assert!(!valid_addon_id(""));
    assert!(!valid_addon_id("Theme"));
    assert!(!valid_addon_id(&"a".repeat(65)));
}

#[test]
fn enabled_settings_need_an_absolute_checkout() {
    assert_eq!(setting("a", true).validate(), Ok(()));
    let mut relative = setting("a", true);
    relative.source_root = "checkout".into();
    assert_eq!(relative.validate(), Err(RendererAddonError::InvalidSourceRoot));
    relative.enabled = false;
    assert_eq!(relative.validate(), Ok(()));
    assert_eq!(setting("A", false).validate(), Err(RendererAddonError::InvalidId));
}

#[test]
fn manifests_are_checked_revision_by_revision() {
    assert_eq!(revision("a", 1).validate(), Ok(()));
    let mut local = revision("a", 1);
    local.distribution = "bundled".into();
    assert_eq!(local.validate(), Err(RendererAddonError::NotExternalCheckout));
    let mut self_conflict = revision("a", 1);
    self_conflict.conflicts_with = vec!["a".into()];
    assert_eq!(self_conflict.validate(), Err(RendererAddonError::SelfConflict));
    let mut escaping = revision("a", 1);
    escaping.entrypoint.path = r"..\main.js".into();
    assert_eq!(escaping.validate(), Err(RendererAddonError::InvalidAssetPath));
    let mut no_media = revision("a", 1);
    no_media.substitutions[1].media_type = None;
    assert_eq!(no_media.validate(), Err(RendererAddonError::MissingMediaType));
    let mut duplicate = revision("a", 1);
    duplicate.substitutions[1].placeholder = "__DATA__".into();
    assert_eq!(duplicate.validate(), Err(RendererAddonError::DuplicatePlaceholders));

    assert_eq!(
        RendererAddonPolicy::from_manifest(RendererAddonManifest {
            schema_version: 1,
            addons: vec![],
        })
        .err(),
        Some(RendererAddonError::UnsupportedSchemaVersion)
    );
    assert_eq!(
        RendererAddonPolicy::from_manifest(RendererAddonManifest {
            schema_version: 2,
            addons: vec![revision("a", 1), revision("a", 2)],
        })
        .err(),
        Some(RendererAddonError::DuplicateIds)
    );
}

#[test]
fn catalog_lists_supported_addons_sorted_by_id() {
    let mut plus_only = revision("b", 1);
    plus_only.host_adapters = vec![HostAdapterKind::CodexPlusPlus];
    let policy = policy(vec![revision("c", 1), plus_only, revision("a", 9)]);
    let ids: Vec<String> = policy
        .catalog(HostAdapterKind::Direct)
        .into_iter()
        .map(|entry| entry.id)
        .collect();
    assert_eq!(ids, vec!["a", "c"]);
    let plus: Vec<String> = policy
        .catalog(HostAdapterKind::CodexPlusPlus)
        .into_iter()
        .map(|entry| entry.display_name)
        .collect();
    assert_eq!(plus, vec!["Addon b"]);
}

#[test]
fn loading_substitutes_each_placeholder_once() {
    let script = load_addon_script(&revision("a", 1), &reads("a")).unwrap();
    assert_eq!(
        script,
        "main(\"he said \\\"hi\\\"\", \"data:image/png;base64,AQID\");"
    );
}

#[test]
fn loading_fails_on_unavailable_or_altered_sources() {
    let mut missing = reads("a");
    missing.substitutions[1] = None;
    assert_eq!(
        load_addon_script(&revision("a", 1), &missing),
        Err(AddonLoadError::SourceUnavailable)
    );
    let mut altered = reads("a");
    altered.entrypoint = Some(b"other();".to_vec());
    assert_eq!(
        load_addon_script(&revision("a", 1), &altered),
        Err(AddonLoadError::SourceIdentityMismatch)
    );
    let mut repeated = revision("a", 1);
    let entry = b"main(__DATA__, __DATA__, __IMG__);";
    repeated.entrypoint = asset("dist/main.js", entry);
    let mut repeated_reads = reads("a");
    repeated_reads.entrypoint = Some(entry.to_vec());
    assert_eq!(
        load_addon_script(&repeated, &repeated_reads),
        Err(AddonLoadError::InvalidSubstitution)
    );
    let mut not_text = revision("a", 1);
    not_text.entrypoint = asset("dist/main.js", &[0xff, 0xfe]);
    let mut not_text_reads = reads("a");
    not_text_reads.entrypoint = Some(vec![0xff, 0xfe]);
    assert_eq!(
        load_addon_script(&not_text, &not_text_reads),
        Err(AddonLoadError::InvalidEntrypoint)
    );
}

fn reasons(bundle_reports: &[codex_administrator::renderer_addons::RendererAddonReport]) -> Vec<(String, Option<String>, Option<String>)> {
    bundle_reports
        .iter()
        .map(|r| (r.id.clone(), r.reason.clone(), r.blocked_by.clone()))
        .collect()
}

#[test]
fn preparation_screens_orders_and_activates_addons() {
    let mut late = revision("late", 1);
    late.exclusive_slots = vec!["sidebar".into()];
    let mut early = revision("early", 0);
    early.exclusive_slots = vec!["sidebar".into()];
    let mut rival = revision("rival", 5);
    rival.conflicts_with = vec!["early".into()];
    let mut plus_only = revision("plus", 1);
    plus_only.host_adapters = vec![HostAdapterKind::CodexPlusPlus];
    let policy = policy(vec![late, early, rival, plus_only]);

    let settings = vec![
        setting("late", true),
        setting("early", true),
        setting("early", true),
        setting("rival", true),
        setting("off", false),
        setting("unknown", true),
        setting("plus", true),
        setting("Bad", true),
    ];
    let bundle = prepare_renderer_addons(
        &settings,
        &policy,
        HostAdapterKind::Direct,
        &[reads("late"), reads("early"), reads("rival")],
    );
    let reports = bundle.reports();
    assert_eq!(
        reasons(reports),
        vec![
            ("early".into(), Some("duplicate_addon".into()), None),
            ("off".into(), Some("disabled_by_user".into()), None),
            ("unknown".into(), Some("unreviewed_addon".into()), None),
            ("plus".into(), Some("host_adapter_unsupported".into()), None),
            ("Bad".into(), Some("invalid_settings".into()), None),
            ("early".into(), None, None),
            ("late".into(), Some("exclusive_slot_conflict".into()), Some("early".into())),
            ("rival".into(), Some("addon_conflict".into()), Some("early".into())),
        ]
    );
    assert_eq!(reports[5].state, RendererAddonState::Enabled);
    assert_eq!(reports[5].project_revision.as_deref(), Some("rev-early"));
    assert_eq!(bundle.scripts().len(), 1);
    assert_eq!(bundle.scripts()[0].id, "early");
}

#[test]
fn settings_beyond_the_limit_are_reported_once() {
    let policy = policy(vec![]);
    let settings: Vec<RendererAddonSettings> =
        (0..17).map(|i| setting(&format!("a{i}"), false)).collect();
    let bundle = prepare_renderer_addons(&settings, &policy, HostAdapterKind::Direct, &[]);
    let reports = bundle.reports();
    assert_eq!(reports.len(), 17);
    assert_eq!(reports[16].id, "additional-addons");
    assert_eq!(reports[16].reason.as_deref(), Some("too_many_addons"));
}

#[test]
fn missing_reads_make_the_source_unavailable() {
    let policy = policy(vec![revision("a", 1)]);
    let bundle = prepare_renderer_addons(&[setting("a", true)], &policy, HostAdapterKind::Direct, &[]);
    assert_eq!(
        bundle.reports()[0].reason.as_deref(),
        Some("source_unavailable")
    );
}

#[test]
fn composition_applies_each_addon_through_the_runtime() {
    let policy = policy(vec![revision("a", 1)]);
    let bundle = prepare_renderer_addons(&[setting("a", true)], &policy, HostAdapterKind::Direct, &[reads("a")]);
    let composed = bundle.compose("primary();", "runtime();");
    assert_eq!(
        composed,
        "primary();\n/* Codex Administrator renderer addon runtime */\nruntime();\n\
         \n/* Codex Administrator renderer addon: a */\n\
         globalThis.__codexAdministratorRendererAddons.apply({\"id\":\"a\",\"revision\":\"rev-a\",\"stateKey\":\"__addonState\",\"disposeMethod\":\"dispose\"}, () => {\n\
         main(\"he said \\\"hi\\\"\", \"data:image/png;base64,AQID\");\n});\n"
    );
}
