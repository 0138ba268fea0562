use codex_administrator::bootstrap::{InjectedModelDescriptor, InjectedReasoningEffort};
use codex_administrator::catalog_entry::{grok_catalog_entries, grok_catalog_entry, CatalogError};

fn descriptor(model: &str) -> InjectedModelDescriptor {
    InjectedModelDescriptor {
        model: model.into(),
        display_name: "Grok 4.5".into(),
        description: "xAI Grok".into(),
        supported_reasoning_efforts: vec![InjectedReasoningEffort {
            reasoning_effort: "high".into(),
            description: "Deep".into(),
        }],
        default_reasoning_effort: "high".into(),
        input_modalities: vec!["text".into(), "image".into()],
    }
}

#[test]
fn an_entry_takes_its_descriptor_and_fixed_settings() {
    let entry = grok_catalog_entry(&descriptor("grok-4.5"), "Intro. You are Codex, an agent based on GPT-5. Rest.", 3, 1);
    assert_eq!(entry.slug, "grok-4.5");
    assert_eq!(entry.display_name, "Grok 4.5");
    assert_eq!(entry.default_reasoning_level, "high");
    assert_eq!(entry.supported_reasoning_levels[0].description, "Deep");
    assert_eq!(entry.priority, 4);
    assert_eq!(
        entry.base_instructions,
        "Intro. You are Codex, running Grok 4.5 inside the official ChatGPT/Codex host. Rest."
    );
    assert_eq!(entry.shell_type, "shell_command");
    assert_eq!(entry.visibility, "none");
    assert!(entry.supported_in_api);
    assert_eq!(entry.context_window, 32768);
    assert_eq!(entry.max_context_window, 32768);
    assert_eq!(entry.effective_context_window_percent, 95);
    assert_eq!(entry.truncation_limit_bytes, 10000);
    assert_eq!(entry.web_search_tool_type, "text");
    assert_eq!(entry.default_reasoning_summary, "none");
    assert!(!entry.supports_reasoning_summaries);
    assert_eq!(entry.input_modalities, vec!["text".to_string(), "image".to_string()]);
    let other = grok_catalog_entry(&descriptor("grok-4.5"), "Official rules.", 0, 0);
    assert_eq!(
        other.base_instructions,
        "You are Codex, running Grok 4.5 inside the official ChatGPT/Codex host.\n\nOfficial rules."
    );
    assert_eq!(other.priority, 0);
}

#[test]
fn taken_slugs_and_missing_instructions_are_refused() {
    let official = vec![Some("gpt-5".to_string()), None];
    let entries =
        grok_catalog_entries(Some("rules"), &official, &vec![descriptor("grok-4.5"), descriptor("grok-4.3-high")]).unwrap();
    assert_eq!(entries.len(), 2);
    assert_eq!(entries[1].priority, 3);
    assert_eq!(
        grok_catalog_entries(Some("rules"), &official, &vec![descriptor("grok-4.5"), descriptor("grok-4.5")]),
        Err(CatalogError::Collision(1))
    );
    assert_eq!(grok_catalog_entries(Some("rules"), &official, &vec![descriptor("gpt-5")]), Err(CatalogError::Collision(0)));
    assert_eq!(grok_catalog_entries(Some("  "), &official, &vec![descriptor("grok-4.5")]), Err(CatalogError::NoInstructions));
    assert_eq!(grok_catalog_entries(None, &official, &vec![]), Err(CatalogError::NoInstructions));
}
