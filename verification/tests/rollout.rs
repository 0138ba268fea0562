use codex_administrator::rollout::{rewrite_rollout, rewrite_session_meta, RolloutError};

const THREAD: &str = "0123abcd-0123-4567-89ab-0123456789ab";

const META: &str = r#"{"type":"session_meta","payload":{"id":"0123abcd-0123-4567-89ab-0123456789ab","cwd":"C:/w"}}"#;

#[test]
fn rollout_import_sets_the_isolated_provider_and_keeps_other_lines() {
    let source = format!("{META}\n{{\"type\":\"event_msg\"}}\r\n\n");
    let rewrite = rewrite_rollout(source.as_bytes(), THREAD, "grok").unwrap();
    let expected = format!(
        "{}\n{{\"type\":\"event_msg\"}}\r\n\n",
        r#"{"payload":{"cwd":"C:/w","id":"0123abcd-0123-4567-89ab-0123456789ab","model_provider":"grok"},"type":"session_meta"}"#
    );
    assert_eq!(String::from_utf8(rewrite.bytes).unwrap(), expected);
    assert_eq!(rewrite.source_sha256, "bbf4b4a3c3e310919170474d5476ede127bb651a3c9a113a091b69e6d54de0fd");
    assert_eq!(rewrite.destination_sha256, "1efb80404720bbb04d313a296bc1cb134bcb413ed16edecdb6a9b86bbbc29230");
}

#[test]
fn rollout_import_replaces_an_earlier_provider() {
    let meta = r#"{"type":"session_meta","payload":{"id":"0123abcd-0123-4567-89ab-0123456789ab","model_provider":"openai"}}"#;
    let out = rewrite_session_meta(meta.as_bytes(), THREAD, "grok").unwrap();
    assert_eq!(
        String::from_utf8(out).unwrap(),
        "{\"payload\":{\"id\":\"0123abcd-0123-4567-89ab-0123456789ab\",\"model_provider\":\"grok\"},\"type\":\"session_meta\"}\n"
    );
}

#[test]
fn rollout_import_refuses_broken_rollouts() {
    assert_eq!(rewrite_rollout(b"", THREAD, "grok"), Err(RolloutError::Empty));
    assert_eq!(rewrite_rollout(META.as_bytes(), THREAD, "grok"), Err(RolloutError::PartialFinalLine));
    let partial = format!("{META}\n{{\"a\":1}}");
    assert_eq!(rewrite_rollout(partial.as_bytes(), THREAD, "grok"), Err(RolloutError::PartialFinalLine));
    let invalid = format!("{META}\nnot json\n");
    assert_eq!(rewrite_rollout(invalid.as_bytes(), THREAD, "grok"), Err(RolloutError::InvalidJson));
    let other = META.replace("0123abcd", "ffffffff");
    assert_eq!(rewrite_rollout(format!("{other}\n").as_bytes(), THREAD, "grok"), Err(RolloutError::InvalidSessionMeta));
    let typed = META.replace("session_meta", "event_msg");
    assert_eq!(rewrite_rollout(format!("{typed}\n").as_bytes(), THREAD, "grok"), Err(RolloutError::InvalidSessionMeta));
    assert_eq!(rewrite_rollout(b"{\n", THREAD, "grok"), Err(RolloutError::InvalidJson));
}

#[test]
fn a_blank_first_line_skips_the_metadata_check() {
    let rewrite = rewrite_rollout(b"\n{\"a\":1}\n", THREAD, "grok").unwrap();
    assert_eq!(rewrite.bytes, b"\n{\"a\":1}\n".to_vec());
}
