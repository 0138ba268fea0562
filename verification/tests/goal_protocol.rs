use codex_administrator::goal_protocol::{
    goal_clear_outcome, goal_get_outcome, goal_set_outcome, initialize_outcome, reply_outcome, set_goal_request,
    thread_request, AppServerError,
};
use codex_administrator::goal_sync::{NativeGoalIntent, NativeGoalStatus};

fn value(text: &str) -> serde_json::Value {
    serde_json::from_str(text).unwrap()
}

fn goal(objective: &str) -> NativeGoalIntent {
    NativeGoalIntent { objective: objective.into(), status: NativeGoalStatus::Active, token_budget: Some(25000) }
}

#[test]
fn replies_are_matched_to_their_request() {
    assert_eq!(reply_outcome(b"{\"id\":\"2\",\"result\":{}}", "1"), Ok(None));
    assert_eq!(reply_outcome(b"{\"method\":\"turn/started\"}", "1"), Ok(None));
    assert_eq!(reply_outcome(b"{\"id\":\"1\",\"result\":{\"a\":1}}\n", "1"), Ok(Some(value("{\"a\":1}"))));
    assert_eq!(
        reply_outcome(b"{\"id\":\"1\",\"error\":{\"code\":-32600,\"message\":\"bad\"}}", "1"),
        Err(AppServerError::RequestFailed { code: -32600, message: "bad".into() })
    );
    assert_eq!(
        reply_outcome(b"{\"id\":\"1\",\"error\":{}}", "1"),
        Err(AppServerError::RequestFailed { code: 0, message: "unknown app-server error".into() })
    );
    assert_eq!(reply_outcome(b"{\"id\":\"1\"}", "1"), Err(AppServerError::MissingResult));
    assert_eq!(reply_outcome(b"not json", "1"), Err(AppServerError::InvalidJson));
}

#[test]
fn initialize_must_come_from_the_official_server() {
    let official = value("{\"codexHome\":\"C:\\\\Users\\\\a\\\\.codex\",\"userAgent\":\"Codex Desktop/1.2\"}");
    assert_eq!(initialize_outcome(&official), Ok("C:\\Users\\a\\.codex".to_string()));
    assert_eq!(initialize_outcome(&value("{\"userAgent\":\"Codex Desktop/1.2\"}")), Err(AppServerError::MissingCodexHome));
    assert_eq!(initialize_outcome(&value("{\"codexHome\":\"C:\\\\x\"}")), Err(AppServerError::NotOfficialServer));
    assert_eq!(
        initialize_outcome(&value("{\"codexHome\":\"C:\\\\x\",\"userAgent\":\"codex desktop/1\"}")),
        Err(AppServerError::NotOfficialServer)
    );
}

#[test]
fn goal_replies_are_read_and_checked() {
    assert_eq!(goal_get_outcome(&value("{}")), Ok(None));
    assert_eq!(goal_get_outcome(&value("{\"goal\":null}")), Ok(None));
    assert_eq!(
        goal_get_outcome(&value(
            "{\"goal\":{\"objective\":\"Ship\",\"status\":\"budgetLimited\",\"tokenBudget\":null,\"extra\":1}}"
        )),
        Ok(Some(NativeGoalIntent { objective: "Ship".into(), status: NativeGoalStatus::BudgetLimited, token_budget: None }))
    );
    assert_eq!(
        goal_get_outcome(&value("{\"goal\":{\"objective\":\"Ship\",\"status\":\"done\"}}")),
        Err(AppServerError::InvalidGoal)
    );
    let set = value("{\"goal\":{\"objective\":\"Daily objective\",\"status\":\"active\",\"tokenBudget\":25000}}");
    assert_eq!(goal_set_outcome(&set, &goal("Daily objective")), Ok(()));
    assert_eq!(goal_set_outcome(&set, &goal("Other")), Err(AppServerError::GoalNotPreserved));
    assert_eq!(goal_set_outcome(&value("{}"), &goal("x")), Err(AppServerError::MissingGoal));
    assert_eq!(goal_set_outcome(&value("{\"goal\":null}"), &goal("x")), Err(AppServerError::InvalidGoal));
    assert_eq!(goal_clear_outcome(&value("{\"cleared\":true}")), Ok(()));
    assert_eq!(goal_clear_outcome(&value("{\"cleared\":false}")), Err(AppServerError::ClearNotConfirmed));
}

#[test]
fn requests_are_written_as_serde_json_writes_them() {
    let expected = value(
        "{\"id\":\"7\",\"method\":\"thread/goal/set\",\"params\":{\"threadId\":\"t\\\"1\",\"objective\":\"Ship \\\"it\\\"\",\"status\":\"active\",\"tokenBudget\":25000}}",
    );
    assert_eq!(set_goal_request(7, "t\"1", &goal("Ship \"it\"")), serde_json::to_string(&expected).unwrap());
    let mut unbounded = goal("x");
    unbounded.token_budget = None;
    unbounded.status = NativeGoalStatus::UsageLimited;
    assert_eq!(
        set_goal_request(12, "t", &unbounded),
        "{\"id\":\"12\",\"method\":\"thread/goal/set\",\"params\":{\"objective\":\"x\",\"status\":\"usageLimited\",\"threadId\":\"t\",\"tokenBudget\":null}}"
    );
    assert_eq!(
        thread_request(1, "thread/goal/clear", "abc"),
        "{\"id\":\"1\",\"method\":\"thread/goal/clear\",\"params\":{\"threadId\":\"abc\"}}"
    );
    let mut negative = goal("x");
    negative.token_budget = Some(-9_223_372_036_854_775_808);
    assert!(set_goal_request(0, "t", &negative).contains("\"tokenBudget\":-9223372036854775808}"));
}

#[test]
fn thread_ids_are_escaped_as_json_string_literals() {
    assert_eq!(
        thread_request(3, "thread/goal/get", "a\"b\\c\n\t\u{1}\u{1f}\u{7f}é"),
        "{\"id\":\"3\",\"method\":\"thread/goal/get\",\"params\":{\"threadId\":\"a\\\"b\\\\c\\n\\t\\u0001\\u001f\u{7f}é\"}}"
    );
}
