use codex_administrator::launcher_settings::LauncherSettings;
use codex_administrator::model_discovery::DiscoveredModel;
use codex_administrator::supervisor::{
    launcher_child_event, outcome_detail_text, supervise_launcher, supervision_step, validate_credential,
    ChildEventFields, LauncherChildEvent, LauncherChildOutcome, LauncherSupervisorBackend, SupervisorError,
    SupervisorExit, SupervisorGeneration, SupervisorMode,
};

fn configured() -> LauncherSettings {
    let mut settings = LauncherSettings::default();
    settings.cached_models = vec![DiscoveredModel { id: "grok-4.5".into(), owned_by: None }];
    settings.selected_models = vec!["grok-4.5".into()];
    settings.sync_native_sessions = true;
    settings
}

fn outcome(ready: Option<SupervisorMode>, restart: bool, success: bool, diagnostic: &str) -> LauncherChildOutcome {
    LauncherChildOutcome {
        ready_mode: ready,
        restart_requested: restart,
        success,
        exit_code: Some(3),
        diagnostic: diagnostic.into(),
    }
}

#[test]
fn generation_without_credential_manages_only() {
    let generation = SupervisorGeneration::new(configured(), None).unwrap();
    assert_eq!(generation.mode(), SupervisorMode::ManagementOnly);
    assert!(generation.launch_settings().selected_models.is_empty());
    assert!(!generation.launch_settings().sync_native_sessions);
    assert_eq!(generation.settings(), &configured());
    assert!(!generation.credential_present());
    let generation = SupervisorGeneration::new(configured(), Some("xai-key".into())).unwrap();
    assert_eq!(generation.mode(), SupervisorMode::Configured);
    assert_eq!(generation.credential(), Some("xai-key"));
    assert_eq!(generation.launch_settings(), &configured());
    assert_eq!(
        SupervisorGeneration::new(configured(), Some(" key".into())),
        Err(SupervisorError::InvalidCredential)
    );
    assert!(validate_credential("key"));
    assert!(!validate_credential(""));
}

#[test]
fn outcomes_are_answered_by_readiness_restart_and_exit() {
    let mode = SupervisorMode::Configured;
    assert_eq!(supervision_step(mode, &outcome(Some(mode), true, true, ""), 0, 2), Ok(None));
    assert_eq!(
        supervision_step(mode, &outcome(Some(mode), true, true, ""), 2, 2),
        Err(SupervisorError::RestartLimitExceeded)
    );
    assert_eq!(
        supervision_step(mode, &outcome(Some(mode), false, true, ""), 0, 2),
        Ok(Some(SupervisorExit::UserClosed))
    );
    assert_eq!(
        supervision_step(mode, &outcome(Some(SupervisorMode::ManagementOnly), false, true, "boom\n"), 0, 2),
        Err(SupervisorError::NotReady("boom".into()))
    );
    assert_eq!(
        supervision_step(mode, &outcome(Some(mode), false, false, "first\n  last line  \n\n"), 0, 2),
        Err(SupervisorError::UnexpectedExit("last line".into()))
    );
    assert_eq!(
        supervision_step(mode, &outcome(Some(mode), true, false, ""), 0, 2),
        Err(SupervisorError::RestartFailed("exit code 3".into()))
    );
}

#[test]
fn detail_falls_back_to_the_exit_code() {
    assert_eq!(outcome_detail_text(&outcome(None, false, false, " \n ")), "exit code 3");
    let mut silent = outcome(None, false, false, "");
    silent.exit_code = Some(-1);
    assert_eq!(outcome_detail_text(&silent), "exit code -1");
    silent.exit_code = None;
    assert_eq!(outcome_detail_text(&silent), "no diagnostic was returned");
}

struct Scripted {
    outcomes: Vec<LauncherChildOutcome>,
    runs: usize,
}

impl LauncherSupervisorBackend for Scripted {
    fn load_log(&self) -> vstd::seq::Seq<Result<SupervisorGeneration, String>> {
        unreachable!("a specification function, never called")
    }

    fn run_log(&self) -> vstd::seq::Seq<(SupervisorGeneration, Result<LauncherChildOutcome, String>)> {
        unreachable!("a specification function, never called")
    }

    fn load_generation(&mut self) -> Result<SupervisorGeneration, String> {
        SupervisorGeneration::new(configured(), Some("key".into())).map_err(|e| format!("{e:?}"))
    }

    fn run_generation(&mut self, _generation: &SupervisorGeneration) -> Result<LauncherChildOutcome, String> {
        let next = self.outcomes.get(self.runs).cloned().ok_or_else(|| "no more runs".to_string());
        self.runs += 1;
        next
    }
}

#[test]
fn supervision_restarts_until_the_child_closes() {
    let ready = Some(SupervisorMode::Configured);
    let mut backend = Scripted {
        outcomes: vec![outcome(ready, true, true, ""), outcome(ready, true, true, ""), outcome(ready, false, true, "")],
        runs: 0,
    };
    assert_eq!(supervise_launcher(&mut backend, 2), Ok(SupervisorExit::UserClosed));
    assert_eq!(backend.runs, 3);
    let mut backend = Scripted { outcomes: vec![outcome(ready, true, true, ""); 3], runs: 0 };
    assert_eq!(supervise_launcher(&mut backend, 2), Err(SupervisorError::RestartLimitExceeded));
    let mut backend = Scripted { outcomes: vec![], runs: 0 };
    assert_eq!(supervise_launcher(&mut backend, 2), Err(SupervisorError::Backend("no more runs".into())));
}

#[test]
fn only_direct_host_lines_report_events() {
    let fields = |host: Option<&str>, status: Option<&str>, enabled: Option<bool>, mode: Option<SupervisorMode>| {
        ChildEventFields { host: host.map(String::from), status: status.map(String::from), injection_enabled: enabled, mode }
    };
    assert_eq!(
        launcher_child_event(&fields(Some("direct"), Some("ready"), Some(true), Some(SupervisorMode::Configured))),
        Some(LauncherChildEvent::Ready { mode: SupervisorMode::Configured })
    );
    assert_eq!(launcher_child_event(&fields(Some("direct"), Some("ready"), Some(false), Some(SupervisorMode::Configured))), None);
    assert_eq!(
        launcher_child_event(&fields(Some("direct"), Some("restart_requested"), None, None)),
        Some(LauncherChildEvent::RestartRequested)
    );
    assert_eq!(launcher_child_event(&fields(Some("codex"), Some("restart_requested"), None, None)), None);
    assert_eq!(launcher_child_event(&fields(None, Some("ready"), Some(true), Some(SupervisorMode::Configured))), None);
}
