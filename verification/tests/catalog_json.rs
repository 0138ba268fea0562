use codex_administrator::bootstrap::{InjectedModelDescriptor, InjectedReasoningEffort};
use codex_administrator::catalog_entry::{grok_catalog_entry, CatalogError};
use codex_administrator::catalog_json::{
    append_grok_catalog_entries, catalog_entry_value, normalize_official_model_catalog,
};
use serde_json::Value;

fn descriptor(model: &str) -> InjectedModelDescriptor {
    InjectedModelDescriptor {
        model: model.into(),
        display_name: "Grok 4.5".into(),
        description: "xAI Grok".into(),
        supported_reasoning_efforts: vec![InjectedReasoningEffort {
            reasoning_effort: "high".into(),
            description: "Deep".into(),
        }],
        default_reasoning_effort: "high".into(),
        input_modalities: vec!["text".into(), "image".into()],
    }
}

fn j(text: &str) -> Value {
    serde_json::from_str(text).unwrap()
}

fn catalog() -> Value {
    serde_json::from_str(
        r#"{"version": 3, "models": [
            {"slug": "gpt-5", "base_instructions": "Intro. You are Codex, an agent based on GPT-5. Rest.", "context_window": 272000, "extra": [1], "upgrade": {"x": 1}},
            {"slug": "gpt-5-mini", "base_instructions": "other"}
        ]}"#,
    )
    .unwrap()
}

#[test]
fn an_entry_value_sets_every_grok_member_over_the_template() {
    let template = &catalog()["models"][0];
    let entry = grok_catalog_entry(&descriptor("grok-4.5"), "rules", 2, 0);
    let value = catalog_entry_value(template, &entry).unwrap();
    assert_eq!(value["slug"], "grok-4.5");
    assert_eq!(value["display_name"], "Grok 4.5");
    assert_eq!(value["description"], "xAI Grok");
    assert_eq!(value["priority"], 2);
    assert_eq!(value["context_window"], 32768);
    assert_eq!(value["max_context_window"], 32768);
    assert_eq!(value["effective_context_window_percent"], 95);
    assert_eq!(value["upgrade"], Value::Null);
    assert_eq!(value["extra"], j("[1]"));
    assert_eq!(value["service_tiers"], j("[]"));
    assert_eq!(value["availability_nux"], j(r#"{"message": "codex-administrator:grok-native-catalog-v1"}"#));
    assert_eq!(value["truncation_policy"], j(r#"{"mode": "bytes", "limit": 10000}"#));
    assert_eq!(value["supported_reasoning_levels"], j(r#"[{"effort": "high", "description": "Deep"}]"#));
    assert_eq!(value["input_modalities"], j(r#"["text", "image"]"#));
    assert_eq!(value["supports_reasoning_summaries"], false);
    assert_eq!(value["supported_in_api"], true);
    assert_eq!(catalog_entry_value(&Value::Null, &entry), Err(CatalogError::TemplateNotObject));
}

#[test]
fn grok_entries_are_appended_after_the_official_ones() {
    let mut value = catalog();
    append_grok_catalog_entries(&mut value, &vec![descriptor("grok-4.5"), descriptor("grok-4.3-high")]).unwrap();
    let models = value["models"].as_array().unwrap();
    assert_eq!(models.len(), 4);
    assert_eq!(models[0]["slug"], "gpt-5");
    assert_eq!(models[2]["slug"], "grok-4.5");
    assert_eq!(models[3]["slug"], "grok-4.3-high");
    assert_eq!(models[3]["priority"], 3);
    assert_eq!(
        models[2]["base_instructions"],
        "Intro. You are Codex, running Grok 4.5 inside the official ChatGPT/Codex host. Rest."
    );
    assert_eq!(value["version"], 3);
}

#[test]
fn refused_catalogs_are_left_as_they_were() {
    let mut value = catalog();
    assert_eq!(
        append_grok_catalog_entries(&mut value, &vec![descriptor("grok-4.5"), descriptor("gpt-5-mini")]),
        Err(CatalogError::Collision(1))
    );
    assert_eq!(value, catalog());
    let mut no_models = j(r#"{"models": {}}"#);
    assert_eq!(append_grok_catalog_entries(&mut no_models, &vec![]), Err(CatalogError::NoModels));
    let mut empty = j(r#"{"models": []}"#);
    assert_eq!(append_grok_catalog_entries(&mut empty, &vec![]), Err(CatalogError::EmptyCatalog));
    let mut blank = j(r#"{"models": [{"slug": "a", "base_instructions": "  "}]}"#);
    assert_eq!(append_grok_catalog_entries(&mut blank, &vec![descriptor("g")]), Err(CatalogError::NoInstructions));
}

#[test]
fn missing_reasoning_summary_support_is_filled_in() {
    let mut value = j(r#"{"models": [
        {"slug": "a", "default_reasoning_summary": "Auto"},
        {"slug": "b", "default_reasoning_summary": "NONE"},
        {"slug": "c"},
        {"slug": "d", "supports_reasoning_summaries": false, "default_reasoning_summary": "auto"}
    ]}"#);
    normalize_official_model_catalog(&mut value).unwrap();
    assert_eq!(value["models"][0]["supports_reasoning_summaries"], true);
    assert_eq!(value["models"][1]["supports_reasoning_summaries"], false);
    assert_eq!(value["models"][2]["supports_reasoning_summaries"], false);
    assert_eq!(value["models"][3]["supports_reasoning_summaries"], false);
    let mut bad = j(r#"{"models": [1]}"#);
    assert_eq!(normalize_official_model_catalog(&mut bad), Err(CatalogError::EntryNotObject));
    let mut none = j("{}");
    assert_eq!(normalize_official_model_catalog(&mut none), Err(CatalogError::NoModels));
}
