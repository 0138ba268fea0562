use codex_administrator::launcher_settings::{
    provider_base_url_for_action_path, resolve_launcher_control_settings, validate_responses_action_path,
    LauncherSettings, SettingsError,
};
use codex_administrator::model_discovery::{DiscoveredModel, ModelError};

fn cached(id: &str) -> DiscoveredModel {
    DiscoveredModel { id: id.into(), owned_by: Some("xai".into()) }
}

fn configured() -> LauncherSettings {
    let mut settings = LauncherSettings::default();
    settings.cached_models = vec![cached("grok-4.5"), cached("grok-4.3-high")];
    settings.selected_models = vec!["grok-4.5".into()];
    settings
}

#[test]
fn default_settings_are_valid_and_keep_imports_off() {
    let settings = LauncherSettings::default();
    assert_eq!(settings.validate(), Ok(()));
    assert_eq!(settings.base_url, "https://ai.hebox.net/v1");
    assert_eq!(settings.action_path, "/responses");
    assert!(settings.sync_native_auth);
    assert!(!settings.sync_native_sessions);
    assert!(!settings.sync_native_goals);
    assert!(!settings.sync_native_skills);
}

#[test]
fn selections_must_be_cached_grok_models() {
    assert_eq!(configured().validate(), Ok(()));
    let mut settings = configured();
    settings.selected_models.push("grok-4.5".into());
    assert_eq!(settings.validate(), Err(SettingsError::DuplicateSelectedModel));
    let mut settings = configured();
    settings.selected_models = vec!["gpt-5".into()];
    assert_eq!(settings.validate(), Err(SettingsError::NonGrokSelection));
    let mut settings = configured();
    settings.selected_models = vec!["grok-4.3-low".into()];
    assert_eq!(settings.validate(), Err(SettingsError::SelectionNotCached));
    let mut settings = configured();
    settings.cached_models.push(cached("grok-4"));
    assert_eq!(settings.validate(), Err(SettingsError::UnreviewedModel));
    let mut settings = configured();
    settings.cached_models.push(cached("grok-4.5"));
    assert_eq!(settings.validate(), Err(SettingsError::DuplicateCachedModel));
}

#[test]
fn endpoint_and_version_are_checked_first() {
    let mut settings = configured();
    settings.version = 2;
    assert_eq!(settings.validate(), Err(SettingsError::UnsupportedVersion));
    let mut settings = configured();
    settings.base_url = String::new();
    assert_eq!(settings.validate(), Err(SettingsError::MissingBaseUrl));
    let mut settings = LauncherSettings::default();
    settings.base_url = String::new();
    assert_eq!(settings.validate(), Ok(()));
    let mut settings = configured();
    settings.base_url = "http://example.com/v1".into();
    assert_eq!(settings.validate(), Err(SettingsError::Endpoint(ModelError::InsecureScheme)));
    let mut settings = configured();
    settings.action_path = "/chat".into();
    assert_eq!(settings.validate(), Err(SettingsError::Endpoint(ModelError::InvalidActionPath)));
}

#[test]
fn action_paths_are_relative_responses_paths() {
    assert!(validate_responses_action_path("/responses"));
    assert!(validate_responses_action_path("/openai/v2/responses"));
    assert!(!validate_responses_action_path("responses"));
    assert!(!validate_responses_action_path("/a//responses"));
    assert!(!validate_responses_action_path("/a/../responses"));
    assert!(!validate_responses_action_path("/a b/responses"));
    assert_eq!(
        provider_base_url_for_action_path("https://api.x.ai/v1/", "/proxy/responses").unwrap(),
        "https://api.x.ai/v1/proxy"
    );
    assert_eq!(provider_base_url_for_action_path("https://api.x.ai/v1", "/responses").unwrap(), "https://api.x.ai/v1");
}

#[test]
fn control_settings_come_from_the_store_only_when_managed() {
    let stored = configured();
    let fallback = LauncherSettings::default();
    assert_eq!(resolve_launcher_control_settings(stored.clone(), fallback.clone(), true), Ok(stored.clone()));
    assert_eq!(resolve_launcher_control_settings(stored, fallback.clone(), false), Ok(fallback));
    let mut broken = configured();
    broken.version = 0;
    assert_eq!(
        resolve_launcher_control_settings(broken, LauncherSettings::default(), true),
        Err(SettingsError::UnsupportedVersion)
    );
}
