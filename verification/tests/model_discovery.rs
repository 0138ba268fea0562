use codex_administrator::launcher_settings::provider_base_url_from;
use codex_administrator::model_discovery::{model_list_url_from, UriParts};
use codex_administrator::model_discovery::{
    check_model_response_size, collect_models, injectable_grok_models, is_reviewed_grok_model_id, model_list_url,
    search_models, validate_api_key, DiscoveredModel, ModelError, ModelListEntry,
};

fn model(id: &str, owner: Option<&str>) -> DiscoveredModel {
    DiscoveredModel { id: id.into(), owned_by: owner.map(String::from) }
}

fn entry(id: &str, owner: Option<&str>) -> ModelListEntry {
    ModelListEntry { id: id.into(), owned_by: owner.map(String::from) }
}

#[test]
fn model_list_lives_under_the_version_one_base_url() {
    assert_eq!(model_list_url("https://api.x.ai/v1").unwrap(), "https://api.x.ai/v1/models");
    assert_eq!(model_list_url("https://api.x.ai/v1//").unwrap(), "https://api.x.ai/v1/models");
    assert_eq!(model_list_url("http://127.0.0.1:8080/v1").unwrap(), "http://127.0.0.1:8080/v1/models");
}

#[test]
fn unsafe_or_unversioned_base_urls_are_refused() {
    assert_eq!(model_list_url("http://api.x.ai/v1"), Err(ModelError::InsecureScheme));
    assert_eq!(model_list_url("https://user@api.x.ai/v1"), Err(ModelError::CredentialsOrQuery));
    assert_eq!(model_list_url("https://api.x.ai/v1?x=1"), Err(ModelError::CredentialsOrQuery));
    assert_eq!(model_list_url("https://api.x.ai/v2"), Err(ModelError::NotVersionOne));
    assert_eq!(model_list_url("/v1"), Err(ModelError::MissingScheme));
    assert_eq!(model_list_url("not a url"), Err(ModelError::InvalidBaseUrl));
}

#[test]
fn only_reviewed_grok_models_are_injectable() {
    assert!(is_reviewed_grok_model_id("grok-4.5"));
    assert!(!is_reviewed_grok_model_id("grok-4.3-xhigh"));
    assert!(is_reviewed_grok_model_id("grok-4.20-multi-agent-xhigh"));
    assert!(!is_reviewed_grok_model_id("Grok-4.5"));
    assert!(is_reviewed_grok_model_id("grok-4.20-multi-agent-low"));
    assert!(!is_reviewed_grok_model_id("grok-4.3"));
    assert!(!is_reviewed_grok_model_id("grok-4.5-high"));
    let models = vec![model("grok-4.5", None), model("grok-3", None), model("grok-4.3-low", Some("xai"))];
    let kept: Vec<&str> = injectable_grok_models(&models).iter().map(|m| m.id.as_str()).collect();
    assert_eq!(kept, vec!["grok-4.5", "grok-4.3-low"]);
}

#[test]
fn search_matches_ids_and_owners_case_insensitively() {
    let models = vec![model("Grok-4.5", Some("xAI")), model("gpt-5", Some("openai")), model("mini", None)];
    let found: Vec<&str> = search_models(&models, "  GROK ").iter().map(|m| m.id.as_str()).collect();
    assert_eq!(found, vec!["Grok-4.5"]);
    let found: Vec<&str> = search_models(&models, "open").iter().map(|m| m.id.as_str()).collect();
    assert_eq!(found, vec!["gpt-5"]);
    assert_eq!(search_models(&models, "   ").len(), 3);
    assert!(search_models(&models, "absent").is_empty());
}

#[test]
fn model_lists_skip_repeats_and_refuse_invalid_entries() {
    let models = collect_models(vec![entry("a", Some("x")), entry("a", Some("y")), entry("b", None)]).unwrap();
    assert_eq!(models, vec![model("a", Some("x")), model("b", None)]);
    assert_eq!(collect_models(vec![]), Err(ModelError::NoUsableModels));
    assert_eq!(collect_models(vec![entry(" a", None)]), Err(ModelError::InvalidModelId));
    assert_eq!(collect_models(vec![entry("a", Some(""))]), Err(ModelError::InvalidModelOwner));
}

#[test]
fn keys_and_response_sizes_are_bounded() {
    assert_eq!(validate_api_key("xai-abc"), Ok(()));
    assert_eq!(validate_api_key(""), Err(ModelError::InvalidApiKey));
    assert_eq!(validate_api_key("a\nb"), Err(ModelError::InvalidApiKey));
    assert_eq!(validate_api_key(&"k".repeat(2049)), Err(ModelError::InvalidApiKey));
    assert_eq!(check_model_response_size(0), Err(ModelError::InvalidResponseSize));
    assert_eq!(check_model_response_size(4_194_304), Ok(()));
    assert_eq!(check_model_response_size(4_194_305), Err(ModelError::InvalidResponseSize));
}

#[test]
fn the_endpoint_checks_read_the_parsed_parts() {
    let parts = |scheme: &str, host: &str, authority: &str, query: Option<&str>, path: &str| UriParts {
        scheme: Some(scheme.into()),
        host: Some(host.into()),
        authority: Some(authority.into()),
        query: query.map(String::from),
        path: path.into(),
        port: None,
    };
    assert_eq!(
        model_list_url_from("https://api.x.ai/v1/", Some(parts("https", "api.x.ai", "api.x.ai", None, "/v1/"))),
        Ok("https://api.x.ai/v1/models".to_string())
    );
    assert_eq!(model_list_url_from("x", None), Err(ModelError::InvalidBaseUrl));
    assert_eq!(
        model_list_url_from("http://h/v1", Some(parts("http", "h", "h", None, "/v1"))),
        Err(ModelError::InsecureScheme)
    );
    assert_eq!(
        model_list_url_from("https://u@h/v1", Some(parts("https", "h", "u@h", None, "/v1"))),
        Err(ModelError::CredentialsOrQuery)
    );
    assert_eq!(
        model_list_url_from("https://h/v2", Some(parts("https", "h", "h", None, "/v2"))),
        Err(ModelError::NotVersionOne)
    );
    assert_eq!(
        provider_base_url_from("https://h/v1/", "/v1/responses", Some(parts("https", "h", "h", None, "/v1/"))),
        Ok("https://h/v1/v1".to_string())
    );
}
