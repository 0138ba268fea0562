use codex_administrator::hook_config::merge_continuity_hook;
use codex_administrator::session_hook::HookError;

const COMMAND: &str = "\"C:\\\\admin.exe\" session-continuity-hook --manifest \"C:\\\\m.json\"";

fn parse(bytes: &[u8]) -> serde_json::Value {
    serde_json::from_slice(bytes).unwrap()
}

#[test]
fn an_empty_configuration_gets_one_continuity_group() {
    let rendered = merge_continuity_hook(b"", COMMAND).unwrap();
    assert_eq!(rendered.last(), Some(&b'\n'));
    let root = parse(&rendered);
    let groups = root["hooks"]["UserPromptSubmit"].as_array().unwrap();
    assert_eq!(groups.len(), 1);
    assert_eq!(groups[0]["matcher"], "");
    assert_eq!(groups[0]["hooks"][0]["type"], "command");
    assert_eq!(groups[0]["hooks"][0]["command"], COMMAND);
    assert_eq!(groups[0]["hooks"][0]["timeout"], 5);
    let mut expected = serde_json::to_vec_pretty(&root).unwrap();
    expected.push(b'\n');
    assert_eq!(rendered, expected);
}

#[test]
fn older_continuity_groups_are_replaced_and_others_kept() {
    let existing = br#"{"other":1,"hooks":{"Stop":[],"UserPromptSubmit":[
        {"matcher":"","hooks":[{"type":"command","command":"old session-continuity-hook"}]},
        {"matcher":"x","hooks":[{"type":"command","command":"lint"}]}
    ]}}"#;
    let rendered = merge_continuity_hook(existing, COMMAND).unwrap();
    let root = parse(&rendered);
    assert_eq!(root["other"], 1);
    assert!(root["hooks"]["Stop"].as_array().unwrap().is_empty());
    let groups = root["hooks"]["UserPromptSubmit"].as_array().unwrap();
    assert_eq!(groups.len(), 2);
    assert_eq!(groups[0]["hooks"][0]["command"], "lint");
    assert_eq!(groups[1]["hooks"][0]["command"], COMMAND);
    assert_eq!(merge_continuity_hook(&rendered, COMMAND).unwrap(), rendered);
}

#[test]
fn malformed_configurations_and_commands_are_refused() {
    assert_eq!(merge_continuity_hook(b"[]", COMMAND), Err(HookError::RootNotObject));
    assert_eq!(merge_continuity_hook(b"{\"hooks\":[]}", COMMAND), Err(HookError::HooksNotObject));
    assert_eq!(
        merge_continuity_hook(b"{\"hooks\":{\"UserPromptSubmit\":{}}}", COMMAND),
        Err(HookError::PromptHooksNotArray)
    );
    assert_eq!(merge_continuity_hook(b"{", COMMAND), Err(HookError::InvalidConfig));
    assert_eq!(merge_continuity_hook(b"{}", "other-hook"), Err(HookError::InvalidCommand));
    let rendered = merge_continuity_hook(b"{}", COMMAND).unwrap();
    assert_eq!(parse(&rendered)["hooks"]["UserPromptSubmit"].as_array().unwrap().len(), 1);
}

#[test]
fn a_configuration_past_the_size_limit_is_refused() {
    let mut existing = b"{\"pad\":\"".to_vec();
    existing.extend(std::iter::repeat(b'x').take(2 * 1024 * 1024));
    existing.extend_from_slice(b"\"}");
    assert_eq!(merge_continuity_hook(&existing, COMMAND), Err(HookError::ConfigTooLarge));
}
