use codex_administrator::session_hook::hook_install_receipt;
use codex_administrator::continuity::{
    NativeSessionContinuity, NativeSessionContinuitySnapshot, NativeSessionCursor, NativeSessionHead,
    NativeSessionRelation, NativeTurnStatus,
};
use codex_administrator::session_hook::{
    decimal_chars, is_continuity_hook_command, observed_age_ms, relation_name, render_context,
    render_cursor, turn_status_name, validate_hook_command, validate_hook_input, validate_turn_id,
    HookError, NativeSessionLane,
};

const THREAD: &str = "0123abcd-0123-4567-89ab-0123456789ab";

fn head() -> NativeSessionHead {
    NativeSessionHead {
        thread_id: THREAD.into(),
        model_provider: "openai".into(),
        turns: Vec::new(),
        history_complete: true,
    }
}

fn cursor(provider: &str, turn: Option<&str>) -> NativeSessionCursor {
    NativeSessionCursor {
        model_provider: provider.into(),
        turn_id: turn.map(String::from),
        turn_status: turn.map(|_| NativeTurnStatus::Completed),
        item_id: None,
        item_type: Some("message".into()),
        item_status: None,
        item_count: 12,
        items_complete: true,
    }
}

#[test]
fn cursors_render_as_labelled_pairs() {
    let text: String = render_cursor("daily", &cursor("openai", Some("t1"))).into_iter().collect();
    assert_eq!(
        text,
        "daily.provider=openai; daily.turn=t1; daily.turn_status=completed; daily.item=none; \
daily.item_type=message; daily.item_status=none; daily.item_count=12; daily.items_complete=true"
    );
}

#[test]
fn the_context_lists_both_lanes_and_the_coordination_rule() {
    let snapshot = NativeSessionContinuitySnapshot {
        daily: head(),
        isolated: head(),
        continuity: NativeSessionContinuity {
            thread_id: THREAD.into(),
            relation: NativeSessionRelation::DailyAhead,
            common_turn_id: Some("t0".into()),
            daily_head_id: Some("t1".into()),
            isolated_head_id: Some("t0".into()),
            daily_cursor: cursor("openai", Some("t1")),
            isolated_cursor: cursor("grok_native", None),
        },
        observed_at_unix_ms: 1000,
    };
    let text = render_context(&snapshot, NativeSessionLane::Isolated, "t2", 250);
    let lines: Vec<&str> = text.lines().collect();
    assert_eq!(lines[0], "Codex Administrator dual-session coordinates (machine metadata only; no message bodies).");
    assert_eq!(lines[1], format!("logical_thread={THREAD}"));
    assert_eq!(lines[2], "current_lane=isolated");
    assert_eq!(lines[3], "current_turn=t2");
    assert_eq!(lines[4], "relation=dailyAhead");
    assert_eq!(lines[5], "common_completed_turn=t0");
    assert_eq!(lines[6], "observed_at_unix_ms=1000");
    assert_eq!(lines[7], "observed_age_ms=250");
    assert!(lines[8].starts_with("daily.provider=openai; daily.turn=t1;"));
    assert!(lines[9].starts_with("isolated.provider=grok_native; isolated.turn=none; isolated.turn_status=none;"));
    assert_eq!(
        lines[10],
        "coordination_rule=single-writer mainline; retain both heads on divergence; handoff or merge explicitly; never last-writer-wins."
    );
    assert_eq!(lines.len(), 11);
}

#[test]
fn names_and_numbers_render_as_the_hook_writes_them() {
    assert_eq!(relation_name(NativeSessionRelation::IsolatedAhead), "isolatedAhead");
    assert_eq!(turn_status_name(NativeTurnStatus::InProgress), "inProgress");
    assert_eq!(decimal_chars(0).into_iter().collect::<String>(), "0");
    assert_eq!(decimal_chars(18446744073709551615).into_iter().collect::<String>(), "18446744073709551615");
    assert_eq!(observed_age_ms(Some(1500), 1000), 500);
    assert_eq!(observed_age_ms(Some(500), 1000), 0);
    assert_eq!(observed_age_ms(None, 1000), 0);
}

#[test]
fn hook_input_names_a_submitted_prompt_of_a_known_thread() {
    assert_eq!(validate_hook_input(10, "UserPromptSubmit", THREAD, "turn-1"), Ok(()));
    assert_eq!(validate_hook_input(65537, "UserPromptSubmit", THREAD, "turn-1"), Err(HookError::InputTooLarge));
    assert_eq!(validate_hook_input(10, "Stop", THREAD, "turn-1"), Err(HookError::UnexpectedEvent));
    assert_eq!(validate_hook_input(10, "UserPromptSubmit", "x", "turn-1"), Err(HookError::InvalidThreadId));
    assert_eq!(validate_hook_input(10, "UserPromptSubmit", THREAD, "  "), Err(HookError::InvalidTurnId));
    assert_eq!(validate_turn_id(&"t".repeat(257)), Err(HookError::InvalidTurnId));
    assert_eq!(validate_turn_id("turn\u{7}"), Err(HookError::InvalidTurnId));
}

#[test]
fn hook_commands_carry_the_marker() {
    let command = r#""C:\Tools\admin.exe" session-continuity-hook --manifest "C:\Owned\m.json""#;
    assert!(is_continuity_hook_command(command));
    assert_eq!(validate_hook_command(command), Ok(()));
    assert_eq!(validate_hook_command("other-hook"), Err(HookError::InvalidCommand));
    assert_eq!(validate_hook_command("   "), Err(HookError::InvalidCommand));
    assert_eq!(validate_hook_command("session-continuity-hook\n"), Err(HookError::InvalidCommand));
}

#[test]
fn hook_receipt_reports_change_and_refuses_oversized_configs() {
    let receipt = hook_install_receipt("hooks.json".into(), b"{}", b"{}\n").unwrap();
    assert_eq!(receipt.path, "hooks.json");
    assert!(receipt.updated);
    assert!(!hook_install_receipt("hooks.json".into(), b"{}\n", b"{}\n").unwrap().updated);
    let huge = vec![b' '; 2 * 1024 * 1024 + 1];
    assert_eq!(hook_install_receipt("hooks.json".into(), b"", &huge), Err(HookError::ConfigTooLarge));
}
