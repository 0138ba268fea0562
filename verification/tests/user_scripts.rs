use codex_administrator::user_scripts::{disable_codex_plus_script, enable_codex_plus_scripts, UserScriptsError};
use serde_json::Value;

fn j(text: &str) -> Value {
    serde_json::from_str(text).unwrap()
}

#[test]
fn enabling_turns_on_the_configuration_and_the_bootstrap_script() {
    let mut root = j(r#"{"theme": "dark", "enabled": false, "scripts": {"user:other.js": false}}"#);
    enable_codex_plus_scripts(&mut root).unwrap();
    assert_eq!(
        root,
        j(r#"{"theme": "dark", "enabled": true, "scripts": {"user:other.js": false, "user:codex-administrator-bootstrap.js": true}}"#)
    );
    let mut empty = j("{}");
    enable_codex_plus_scripts(&mut empty).unwrap();
    assert_eq!(empty, j(r#"{"enabled": true, "scripts": {"user:codex-administrator-bootstrap.js": true}}"#));
    let mut list = j("[]");
    assert_eq!(enable_codex_plus_scripts(&mut list), Err(UserScriptsError::RootNotObject));
    let mut bad = j(r#"{"scripts": []}"#);
    assert_eq!(enable_codex_plus_scripts(&mut bad), Err(UserScriptsError::ScriptsNotObject));
    assert_eq!(bad, j(r#"{"scripts": []}"#));
}

#[test]
fn disabling_removes_only_the_bootstrap_script() {
    let mut root = j(r#"{"enabled": true, "scripts": {"user:other.js": true, "user:codex-administrator-bootstrap.js": true}}"#);
    assert_eq!(disable_codex_plus_script(&mut root), Ok(true));
    assert_eq!(root, j(r#"{"enabled": true, "scripts": {"user:other.js": true}}"#));
    assert_eq!(disable_codex_plus_script(&mut root), Ok(false));
    let mut no_scripts = j(r#"{"scripts": 3}"#);
    assert_eq!(disable_codex_plus_script(&mut no_scripts), Ok(false));
    assert_eq!(disable_codex_plus_script(&mut j("1")), Err(UserScriptsError::RootNotObject));
}
