use codex_administrator::model_catalog::{
    catalog_priority, collides_with_official, grok_base_instructions, supports_reasoning_summaries,
    usable_official_instructions, CatalogScanner, JsonScanProgress, JsonValueScanner,
};

#[test]
fn grok_instructions_replace_the_official_identity_once() {
    let official = "Intro. You are Codex, an agent based on GPT-5. Rest. You are Codex, an agent based on GPT-5.";
    assert_eq!(
        grok_base_instructions(official, "Grok 4.5"),
        "Intro. You are Codex, running Grok 4.5 inside the official ChatGPT/Codex host. Rest. You are Codex, an agent based on GPT-5."
    );
    assert_eq!(
        grok_base_instructions("Be helpful.", "Grok"),
        "You are Codex, running Grok inside the official ChatGPT/Codex host.\n\nBe helpful."
    );
}

#[test]
fn catalog_values_follow_the_official_entries() {
    assert_eq!(catalog_priority(5, 0), 5);
    assert_eq!(catalog_priority(5, 2), 7);
    assert!(usable_official_instructions(Some("text")));
    assert!(!usable_official_instructions(Some("  \n")));
    assert!(!usable_official_instructions(None));
    let slugs = vec![Some("gpt-5".to_string()), None, Some("grok-4.5".to_string())];
    assert!(collides_with_official(&slugs, "grok-4.5"));
    assert!(!collides_with_official(&slugs, "grok-4.3-high"));
    assert!(supports_reasoning_summaries(Some("auto")));
    assert!(!supports_reasoning_summaries(Some("NONE")));
    assert!(!supports_reasoning_summaries(None));
}

#[test]
fn the_catalog_opening_is_found_across_chunks() {
    let mut binary = vec![0u8; 40];
    binary.extend_from_slice(b"{\r\n  \"models\": [1]}");
    binary.extend_from_slice(b"{\n  \"models\": [2]}");
    let mut scanner = CatalogScanner::new();
    let mut found = None;
    for chunk in binary.chunks(7) {
        if let Some(start) = scanner.feed(chunk) {
            found = Some(start);
            break;
        }
    }
    assert_eq!(found, Some(40));

    let mut scanner = CatalogScanner::new();
    assert_eq!(scanner.feed(b"nothing here"), None);
    assert_eq!(scanner.feed(b"{\n  \"models\": "), None);
    assert_eq!(scanner.feed(b"["), Some(12));
}

#[test]
fn the_json_value_ends_at_its_matching_bracket() {
    let text = br#"{"models": [{"slug": "a}]\"b"}]} trailing"#;
    let mut scanner = JsonValueScanner::new();
    assert_eq!(scanner.feed(&text[..10]), JsonScanProgress::Pending);
    match scanner.feed(&text[10..]) {
        JsonScanProgress::Complete { used } => assert_eq!(&text[..10 + used], br#"{"models": [{"slug": "a}]\"b"}]}"#),
        other => panic!("unexpected {other:?}"),
    }
    let mut early = JsonValueScanner::new();
    assert_eq!(early.feed(b"] {}"), JsonScanProgress::ClosedBeforeOpened);
    let mut open = JsonValueScanner::new();
    assert_eq!(open.feed(b"{\"a\": [1, 2"), JsonScanProgress::Pending);
}
