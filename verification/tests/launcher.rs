use codex_administrator::launcher::{sanitize_decoded_diagnostic, sanitize_launcher_diagnostic};
use codex_administrator::launcher::{
    build_direct_launcher_arguments, environment_variable_is_sensitive, validate_launch_credential,
    LauncherError, PROVIDER_RUNTIME_ENV_KEY,
};
use codex_administrator::launcher_settings::LauncherSettings;
use codex_administrator::renderer_addons::RendererAddonSettings;

#[test]
fn default_settings_launch_a_management_run() {
    let settings = LauncherSettings::default();
    let arguments = build_direct_launcher_arguments(&settings, r"C:\Owned\instances\default", false).unwrap();
    assert_eq!(
        arguments,
        vec![
            "inject",
            "--host",
            "direct",
            "--launcher-managed",
            "--base-url",
            "https://ai.hebox.net/v1",
            "--action-path",
            "/responses",
            "--env-key",
            PROVIDER_RUNTIME_ENV_KEY,
            "--instance-root",
            r"C:\Owned\instances\default",
            "--retain-instance-root",
            "--sync-native-auth",
        ]
    );
}

#[test]
fn selections_addons_and_flags_become_arguments() {
    let mut settings = LauncherSettings::default();
    settings.action_path_auto = false;
    settings.sync_native_sessions = true;
    settings.sync_native_skills = true;
    settings.renderer_addons = vec![
        RendererAddonSettings { id: "dark-mode".into(), enabled: true, source_root: r"C:\Addons\dark".into() },
        RendererAddonSettings { id: "off".into(), enabled: false, source_root: String::new() },
    ];
    let arguments = build_direct_launcher_arguments(&settings, r"C:\Owned", true).unwrap();
    assert!(arguments.windows(2).any(|pair| pair == ["--renderer-addon", r"dark-mode=C:\Addons\dark"]));
    assert!(!arguments.iter().any(|argument| argument.starts_with("off=")));
    assert!(arguments.contains(&"--manual-action-path".to_string()));
    assert!(arguments.contains(&"--sync-native-sessions".to_string()));
    assert!(arguments.contains(&"--sync-native-skills".to_string()));
    assert!(!arguments.contains(&"--sync-native-goals".to_string()));
    assert_eq!(arguments.last().map(String::as_str), Some("--credential-present"));
}

#[test]
fn a_relative_instance_root_is_refused() {
    let settings = LauncherSettings::default();
    assert_eq!(
        build_direct_launcher_arguments(&settings, r"instances\default", false),
        Err(LauncherError::InstanceRootNotAbsolute)
    );
}

#[test]
fn secret_shaped_variables_are_withheld() {
    for name in ["OPENAI_API_KEY", "xai_api_key", "GITHUB_TOKEN", "Db_Password", "DATABASE_URL", "pat", "AZURE_CONNECTION_STRING"] {
        assert!(environment_variable_is_sensitive(name), "{name}");
    }
    for name in ["PATH", "HOME", "TOKENIZER", "PATH_PAT_X", "USERPROFILE"] {
        assert!(!environment_variable_is_sensitive(name), "{name}");
    }
}

#[test]
fn a_handed_key_must_be_valid_and_announced() {
    assert_eq!(validate_launch_credential(None, false), Ok(()));
    assert_eq!(validate_launch_credential(Some("xai-key"), true), Ok(()));
    assert_eq!(validate_launch_credential(Some(" xai-key"), true), Err(LauncherError::InvalidApiKey));
    assert_eq!(validate_launch_credential(Some("xai-key"), false), Err(LauncherError::CredentialInconsistent));
}

#[test]
fn launcher_diagnostics_redact_secrets_and_bearer_headers() {
    let raw = b"  start\r\nuser: Authorization: Bearer sk-123\nkey=SECRET\x07end\n\n";
    assert_eq!(
        sanitize_launcher_diagnostic(raw, "SECRET"),
        "start\nuser: Authorization: [REDACTED]\nkey=[REDACTED] end"
    );
    assert_eq!(sanitize_launcher_diagnostic(b"a\tb\x1b", ""), "a\tb");
    assert_eq!(sanitize_launcher_diagnostic(b"\xffok", ""), "\u{FFFD}ok");
    assert_eq!(sanitize_launcher_diagnostic(b"AUTHORIZATION: BEARER x", ""), "Authorization: [REDACTED]");
    assert_eq!(sanitize_launcher_diagnostic(b" \n \r\n", ""), "");
}

#[test]
fn launcher_diagnostics_keep_the_last_displayable_bytes() {
    let long = format!("a{}", "é".repeat(3000));
    let shown = sanitize_launcher_diagnostic(long.as_bytes(), "");
    assert_eq!(shown, "é".repeat(2048));
    let mut huge = vec![b'x'; 70_000];
    huge.extend_from_slice(b"\nlast");
    let shown = sanitize_launcher_diagnostic(&huge, "");
    assert_eq!(shown.len(), 4096);
    assert!(shown.ends_with("x\nlast"));
}

#[test]
fn decoded_diagnostics_are_redacted_cleaned_and_trimmed() {
    assert_eq!(
        sanitize_decoded_diagnostic("  token SECRET here\r\nAuthorization: Bearer abc\n\u{7}x  ", "SECRET"),
        "token [REDACTED] here\nAuthorization: [REDACTED]\n x"
    );
    assert_eq!(sanitize_decoded_diagnostic("plain", ""), "plain");
}

#[test]
fn a_long_credential_never_survives_sanitizing() {
    let secret = "xai-AbCdEfGhIjKlMnOpQrStUv_123";
    let raw = format!("\u{1b}[31m{secret}{secret}\r\nauthorization: bearer {secret}\nkey={secret}x\n");
    let shown = sanitize_launcher_diagnostic(raw.as_bytes(), secret);
    assert!(!shown.contains(secret));
    assert_eq!(shown, "[31m[REDACTED][REDACTED]\nAuthorization: [REDACTED]\nkey=[REDACTED]x");
}
