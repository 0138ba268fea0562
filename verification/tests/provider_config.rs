use codex_administrator::native_provider::{GrokNativeProviderConfig, ProviderError};
use codex_administrator::provider_config::{
    install_catalog_reference_config, remove_catalog_reference_config, remove_grok_native_provider_config,
    render_grok_native_provider_config,
};
use toml_edit::DocumentMut;

fn provider(env_key: &str) -> GrokNativeProviderConfig {
    GrokNativeProviderConfig {
        base_url: "https://api.x.ai/v1".into(),
        action_path: "/responses".into(),
        env_key: env_key.into(),
        supports_websockets: false,
    }
}

fn parse(text: &str) -> DocumentMut {
    text.parse::<DocumentMut>().unwrap()
}

#[test]
fn a_blank_configuration_gets_the_provider_and_the_guard() {
    let rendered = render_grok_native_provider_config("  \n", &provider("XAI_API_KEY")).unwrap();
    let doc = parse(&rendered);
    let entry = &doc["model_providers"]["grok_native"];
    assert_eq!(entry["name"].as_str(), Some("Grok in native ChatGPT/Codex"));
    assert_eq!(entry["base_url"].as_str(), Some("https://api.x.ai/v1"));
    assert_eq!(entry["env_key"].as_str(), Some("XAI_API_KEY"));
    assert_eq!(entry["wire_api"].as_str(), Some("responses"));
    assert_eq!(entry["requires_openai_auth"].as_bool(), Some(false));
    assert_eq!(entry["supports_websockets"].as_bool(), Some(false));
    let policy = &doc["shell_environment_policy"];
    assert_eq!(policy["ignore_default_excludes"].as_bool(), Some(false));
    let excludes: Vec<&str> = policy["exclude"].as_array().unwrap().iter().map(|v| v.as_str().unwrap()).collect();
    assert_eq!(excludes, vec!["XAI_API_KEY"]);
}

#[test]
fn other_settings_are_kept_and_an_existing_exclusion_is_not_repeated() {
    let existing = "model = \"gpt-5\"\n\n[model_providers.other]\nname = \"x\"\n\n[shell_environment_policy]\nexclude = [\"xai_api_key\", \"HOME\"]\n";
    let rendered = render_grok_native_provider_config(existing, &provider("XAI_API_KEY")).unwrap();
    let doc = parse(&rendered);
    assert_eq!(doc["model"].as_str(), Some("gpt-5"));
    assert_eq!(doc["model_providers"]["other"]["name"].as_str(), Some("x"));
    let excludes: Vec<&str> =
        doc["shell_environment_policy"]["exclude"].as_array().unwrap().iter().map(|v| v.as_str().unwrap()).collect();
    assert_eq!(excludes, vec!["xai_api_key", "HOME"]);
    assert_eq!(render_grok_native_provider_config(&rendered, &provider("XAI_API_KEY")).unwrap(), rendered);
}

#[test]
fn configurations_that_cannot_hold_the_provider_are_refused() {
    let key = provider("XAI_API_KEY");
    assert_eq!(render_grok_native_provider_config("[[", &key), Err(ProviderError::InvalidConfig));
    assert_eq!(render_grok_native_provider_config("model_providers = 1\n", &key), Err(ProviderError::ProvidersNotTable));
    assert_eq!(
        render_grok_native_provider_config("[model_providers]\ngrok_native = 1\n", &key),
        Err(ProviderError::ProviderNotTable)
    );
    assert_eq!(render_grok_native_provider_config("shell_environment_policy = 3\n", &key), Err(ProviderError::PolicyNotTable));
    assert_eq!(
        render_grok_native_provider_config("[shell_environment_policy.set]\nXai_Api_Key = \"x\"\n", &key),
        Err(ProviderError::SetReintroducesSecret)
    );
    assert_eq!(
        render_grok_native_provider_config("[shell_environment_policy]\nset = { XAI_API_KEY = \"x\" }\n", &key),
        Err(ProviderError::SetReintroducesSecret)
    );
    assert_eq!(
        render_grok_native_provider_config("[shell_environment_policy]\nexclude = \"x\"\n", &key),
        Err(ProviderError::ExcludeNotArray)
    );
    assert_eq!(
        render_grok_native_provider_config("[shell_environment_policy]\nexclude = [1]\n", &key),
        Err(ProviderError::ExcludeNotStrings)
    );
    assert_eq!(render_grok_native_provider_config("", &provider("OPENAI_API_KEY")), Err(ProviderError::ReservedEnvKey));
}

#[test]
fn removing_the_provider_drops_an_emptied_provider_table() {
    let installed = render_grok_native_provider_config("model = \"m\"\n", &provider("XAI_API_KEY")).unwrap();
    let removed = remove_grok_native_provider_config(&installed).unwrap().unwrap();
    let doc = parse(&removed);
    assert!(doc.get("model_providers").is_none());
    assert_eq!(doc["model"].as_str(), Some("m"));
    assert!(doc.get("shell_environment_policy").is_some());
    assert_eq!(remove_grok_native_provider_config(&removed), Ok(None));
    let shared = "[model_providers.grok_native]\nname = \"g\"\n\n[model_providers.other]\nname = \"o\"\n";
    let kept = parse(&remove_grok_native_provider_config(shared).unwrap().unwrap());
    assert!(kept["model_providers"].get("grok_native").is_none());
    assert_eq!(kept["model_providers"]["other"]["name"].as_str(), Some("o"));
    assert_eq!(remove_grok_native_provider_config(" "), Ok(None));
    assert_eq!(remove_grok_native_provider_config("[["), Err(ProviderError::InvalidConfig));
    assert_eq!(remove_grok_native_provider_config("model_providers = []\n"), Err(ProviderError::ProvidersNotTable));
}

#[test]
fn the_catalog_reference_is_written_and_removed_only_for_its_path() {
    let written = install_catalog_reference_config("model = \"m\"\n", "C:\\admin\\catalog.json").unwrap();
    let doc = parse(&written);
    assert_eq!(doc["model_catalog_json"].as_str(), Some("C:\\admin\\catalog.json"));
    assert_eq!(doc["model"].as_str(), Some("m"));
    assert_eq!(remove_catalog_reference_config(&written, "C:\\other.json"), Ok(None));
    let removed = remove_catalog_reference_config(&written, "C:\\admin\\catalog.json").unwrap().unwrap();
    assert!(parse(&removed).get("model_catalog_json").is_none());
    assert_eq!(install_catalog_reference_config("[[", "C:\\c.json"), Err(ProviderError::InvalidConfig));
    assert_eq!(remove_catalog_reference_config("", "C:\\c.json"), Ok(None));
}
