use codex_administrator::native_provider::provider_install_receipt;
use codex_administrator::host::codex_plus_preparation;
use codex_administrator::inject::{
    continuity_hook_command, direct_provider, parse_renderer_addon_settings, require_retained_root_for_sync,
    supervisor_mode_for, InjectError,
};
use codex_administrator::model_discovery::ModelError;
use codex_administrator::native_provider::{
    plan_shell_environment_guard, GrokNativeProviderConfig, PolicyExcludeField, PolicySetField,
    ProviderError, GROK_NATIVE_PROVIDER_ID,
};
use codex_administrator::renderer_addons::RendererAddonError;
use codex_administrator::supervisor::SupervisorMode;

fn provider(base_url: &str, env_key: &str) -> GrokNativeProviderConfig {
    GrokNativeProviderConfig {
        base_url: base_url.into(),
        action_path: "/responses".into(),
        env_key: env_key.into(),
        supports_websockets: false,
    }
}

#[test]
fn provider_entries_need_a_secure_endpoint_and_an_uppercase_variable() {
    assert_eq!(GROK_NATIVE_PROVIDER_ID, "grok_native");
    assert_eq!(provider("https://api.x.ai/v1", "XAI_API_KEY").validate(), Ok(()));
    assert_eq!(provider("http://127.0.0.1:8080/v1", "_LOCAL").validate(), Ok(()));
    assert_eq!(
        provider("http://api.x.ai/v1", "XAI_API_KEY").validate(),
        Err(ProviderError::Endpoint(ModelError::InsecureScheme))
    );
    assert_eq!(provider("https://api.x.ai/v1", "xai_api_key").validate(), Err(ProviderError::InvalidEnvKey));
    assert_eq!(provider("https://api.x.ai/v1", "1KEY").validate(), Err(ProviderError::InvalidEnvKey));
    assert_eq!(provider("https://api.x.ai/v1", "OPENAI_API_KEY").validate(), Err(ProviderError::ReservedEnvKey));
}

#[test]
fn the_shell_guard_excludes_the_credential_once() {
    let key = "XAI_API_KEY";
    assert_eq!(plan_shell_environment_guard(&PolicySetField::Absent, &PolicyExcludeField::Absent, key), Ok(true));
    assert_eq!(
        plan_shell_environment_guard(
            &PolicySetField::Table(vec!["PATH".into()]),
            &PolicyExcludeField::Array(vec![Some("xai_api_key".into())]),
            key
        ),
        Ok(false)
    );
    assert_eq!(
        plan_shell_environment_guard(
            &PolicySetField::Table(vec!["xai_API_key".into()]),
            &PolicyExcludeField::Absent,
            key
        ),
        Err(ProviderError::SetReintroducesSecret)
    );
    assert_eq!(
        plan_shell_environment_guard(&PolicySetField::NotTable, &PolicyExcludeField::Absent, key),
        Err(ProviderError::SetNotTable)
    );
    assert_eq!(
        plan_shell_environment_guard(&PolicySetField::Absent, &PolicyExcludeField::NotArray, key),
        Err(ProviderError::ExcludeNotArray)
    );
    assert_eq!(
        plan_shell_environment_guard(
            &PolicySetField::Absent,
            &PolicyExcludeField::Array(vec![Some("OTHER".into()), None]),
            key
        ),
        Err(ProviderError::ExcludeNotStrings)
    );
    assert_eq!(
        plan_shell_environment_guard(
            &PolicySetField::Absent,
            &PolicyExcludeField::Array(vec![None, Some("XAI_API_KEY".into())]),
            key
        ),
        Ok(false)
    );
}

#[test]
fn direct_runs_configure_a_provider_only_for_requested_models() {
    assert_eq!(direct_provider(false, None, "/responses".into(), "K".into(), false), Ok(None));
    assert_eq!(
        direct_provider(true, None, "/responses".into(), "XAI_API_KEY".into(), true),
        Err(InjectError::MissingBaseUrl)
    );
    assert_eq!(
        direct_provider(true, Some("https://api.x.ai/v1".into()), "/responses".into(), "XAI_API_KEY".into(), false),
        Err(InjectError::MissingCredential)
    );
    let configured =
        direct_provider(true, Some("https://api.x.ai/v1".into()), "/responses".into(), "XAI_API_KEY".into(), true)
            .unwrap();
    assert_eq!(configured, Some(provider("https://api.x.ai/v1", "XAI_API_KEY")));
    assert_eq!(supervisor_mode_for(&configured), SupervisorMode::Configured);
    assert_eq!(supervisor_mode_for(&None), SupervisorMode::ManagementOnly);
    assert_eq!(require_retained_root_for_sync(true, false), Err(InjectError::SyncRequiresRetainedRoot));
    assert_eq!(require_retained_root_for_sync(true, true), Ok(()));
    assert_eq!(require_retained_root_for_sync(false, false), Ok(()));
}

#[test]
fn requested_addons_are_parsed_checked_and_unique() {
    let parsed = parse_renderer_addon_settings(&vec![r"dark-mode=C:\Addons\dark".to_string()]).unwrap();
    assert_eq!(parsed.len(), 1);
    assert_eq!(parsed[0].id, "dark-mode");
    assert_eq!(parsed[0].source_root, r"C:\Addons\dark");
    assert!(parsed[0].enabled);
    assert_eq!(
        parse_renderer_addon_settings(&vec!["dark-mode".to_string()]),
        Err(InjectError::AddonWithoutPath)
    );
    assert_eq!(
        parse_renderer_addon_settings(&vec!["dark-mode=relative".to_string()]),
        Err(InjectError::Addon(RendererAddonError::InvalidSourceRoot))
    );
    assert_eq!(
        parse_renderer_addon_settings(&vec![r"a=C:\x".to_string(), r"a=C:\y".to_string()]),
        Err(InjectError::DuplicateAddon)
    );
    assert_eq!(
        parse_renderer_addon_settings(&vec![r"a=C:\x".to_string(); 17]),
        Err(InjectError::TooManyAddons)
    );
}

#[test]
fn hook_commands_quote_both_paths() {
    assert_eq!(
        continuity_hook_command(r"C:\Tools\admin.exe", r"C:\Owned\m.json"),
        Ok(r#""C:\Tools\admin.exe" session-continuity-hook --manifest "C:\Owned\m.json""#.to_string())
    );
    assert_eq!(continuity_hook_command("a\"b", r"C:\m.json"), Err(InjectError::UnsafeHookPath));
    assert_eq!(continuity_hook_command(r"C:\a.exe", "m\n.json"), Err(InjectError::UnsafeHookPath));
}

#[test]
fn provider_receipt_reports_change_and_digest() {
    let receipt = provider_install_receipt("a = 1\n", "abc");
    assert!(receipt.updated);
    assert_eq!(receipt.sha256, "ba7816bf8f01cfea414140de5dae2223b00361a396177a9cb410ff61f20015ad");
    assert!(!provider_install_receipt("abc", "abc").updated);
}

#[test]
fn codex_plus_preparation_records_the_installed_script() {
    let preparation = codex_plus_preparation("C:\\x\\bootstrap.js".into(), "abc");
    assert_eq!(preparation.bootstrap_path, "C:\\x\\bootstrap.js");
    assert_eq!(preparation.sha256, "ba7816bf8f01cfea414140de5dae2223b00361a396177a9cb410ff61f20015ad");
}
