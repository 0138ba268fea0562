use codex_administrator::bootstrap::{fixed_reasoning_effort, BootstrapError, InjectedModelDescriptor};

#[test]
fn flagship_grok_model_offers_three_efforts_and_images() {
    let descriptor = InjectedModelDescriptor::grok("grok-4.5".to_string());
    assert_eq!(descriptor.display_name, "grok-4.5");
    assert_eq!(descriptor.description, "Configured xAI model; new tasks only");
    let efforts: Vec<&str> = descriptor.supported_reasoning_efforts.iter().map(|e| e.reasoning_effort.as_str()).collect();
    assert_eq!(efforts, vec!["low", "medium", "high"]);
    assert_eq!(descriptor.default_reasoning_effort, "high");
    assert_eq!(descriptor.input_modalities, vec!["text".to_string(), "image".to_string()]);
    assert_eq!(descriptor.validate(), Ok(()));
}

#[test]
fn effort_alias_fixes_the_only_offered_effort() {
    let descriptor = InjectedModelDescriptor::grok("grok-4.3-high".to_string());
    assert_eq!(descriptor.supported_reasoning_efforts.len(), 1);
    assert_eq!(descriptor.supported_reasoning_efforts[0].reasoning_effort, "high");
    assert_eq!(
        descriptor.supported_reasoning_efforts[0].description,
        "Reasoning effort fixed by the grok-4.3-high alias"
    );
    assert_eq!(descriptor.default_reasoning_effort, "high");
    assert_eq!(descriptor.input_modalities, vec!["text".to_string()]);
    assert_eq!(descriptor.validate(), Ok(()));
}

#[test]
fn fixed_effort_prefers_the_longest_matching_suffix() {
    assert_eq!(fixed_reasoning_effort(&"grok-4.3-XHIGH".to_string()).as_deref(), Some("xhigh"));
    assert_eq!(fixed_reasoning_effort(&"grok-4.3-high".to_string()).as_deref(), Some("high"));
    assert_eq!(fixed_reasoning_effort(&"grok-4.3-medium".to_string()).as_deref(), Some("medium"));
    assert_eq!(fixed_reasoning_effort(&"grok-4.3-low".to_string()).as_deref(), Some("low"));
    assert_eq!(fixed_reasoning_effort(&"grok-4.3".to_string()), None);
    assert_eq!(fixed_reasoning_effort(&"grok-4.3high".to_string()), None);
}

#[test]
fn descriptors_outside_the_reviewed_grok_models_are_refused() {
    assert_eq!(InjectedModelDescriptor::grok("gpt-5".to_string()).validate(), Err(BootstrapError::NotGrokModel));
    assert_eq!(InjectedModelDescriptor::grok("grok-4".to_string()).validate(), Err(BootstrapError::UnreviewedModel));
    assert_eq!(InjectedModelDescriptor::grok(" grok-4.5".to_string()).validate(), Err(BootstrapError::InvalidModelId));
    let mut descriptor = InjectedModelDescriptor::grok("grok-4.5".to_string());
    descriptor.default_reasoning_effort = "xhigh".into();
    assert_eq!(descriptor.validate(), Err(BootstrapError::DefaultEffortMissing));
    let mut descriptor = InjectedModelDescriptor::grok("grok-4.5".to_string());
    descriptor.input_modalities.push("text".into());
    assert_eq!(descriptor.validate(), Err(BootstrapError::DuplicateModality));
    let mut descriptor = InjectedModelDescriptor::grok("grok-4.5".to_string());
    descriptor.input_modalities = vec!["audio".into()];
    assert_eq!(descriptor.validate(), Err(BootstrapError::InvalidModality));
    let mut descriptor = InjectedModelDescriptor::grok("grok-4.5".to_string());
    descriptor.supported_reasoning_efforts.clear();
    assert_eq!(descriptor.validate(), Err(BootstrapError::EffortCount));
}
