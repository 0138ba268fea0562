//! Supervision of the isolated launcher child: which mode a generation runs in, and how
//! each outcome of a child run is answered (restart, close, or fail with a diagnostic).

use vstd::prelude::*;

use crate::launcher_settings::{same_settings, settings_error, LauncherSettings, SettingsError};
use crate::strings::{push_chars, string_from_chars, string_push};
use crate::text::{chars_of, is_blank, is_bounded_clean, is_bounded_clean_chars, is_whitespace_char, slice_chars, trimmed};

verus! {

#[derive(Debug, Clone, Copy, PartialEq, Eq, Structural)]
pub enum SupervisorMode {
    ManagementOnly,
    Configured,
}

/// Why supervision stopped with an error.
#[derive(Debug, Clone, PartialEq, Eq)]
pub enum SupervisorError {
    Settings(SettingsError),
    InvalidCredential,
    NotReady(String),
    RestartFailed(String),
    RestartLimitExceeded,
    UnexpectedExit(String),
    Backend(String),
}

/// The most bytes a provider credential may hold.
pub const MAX_CREDENTIAL_BYTES: usize = 2048;

/// Checks a provider credential: non-empty, at most `MAX_CREDENTIAL_BYTES` bytes, trimmed,
/// and free of control characters.
pub fn validate_credential(credential: &str) -> (result: bool)
    ensures
        result == is_bounded_clean_chars(credential@, MAX_CREDENTIAL_BYTES),
{
    is_bounded_clean(credential, MAX_CREDENTIAL_BYTES)
}

/// The settings and credential of one run of the launcher child, and the mode it runs in.
#[derive(Debug, Clone, PartialEq, Eq)]
pub struct SupervisorGeneration {
    mode: SupervisorMode,
    settings: LauncherSettings,
    launch_settings: LauncherSettings,
    credential_present: bool,
    credential: Option<String>,
}

/// The mode of a generation: configured when models are selected and a credential is
/// present, else management only.
pub open spec fn generation_mode(settings: &LauncherSettings, credential: Option<String>) -> SupervisorMode {
    if settings.selected_models@.len() == 0 || credential is None {
        SupervisorMode::ManagementOnly
    } else {
        SupervisorMode::Configured
    }
}

impl SupervisorGeneration {
    pub closed spec fn spec_mode(&self) -> SupervisorMode {
        self.mode
    }

    pub closed spec fn spec_settings(&self) -> LauncherSettings {
        self.settings
    }

    pub closed spec fn spec_launch_settings(&self) -> LauncherSettings {
        self.launch_settings
    }

    pub closed spec fn spec_credential(&self) -> Option<Seq<char>> {
        match self.credential {
            Some(c) => Some(c@),
            None => None,
        }
    }

    pub closed spec fn spec_credential_present(&self) -> bool {
        self.credential_present
    }

    /// Forms a generation from checked settings and credential. A management-only
    /// generation launches with no selected models, no session synchronisation and no
    /// credential.
    pub fn new(settings: LauncherSettings, credential: Option<String>) -> (result: Result<Self, SupervisorError>)
        ensures
            settings_error(&settings) is Some ==> (result matches Err(SupervisorError::Settings(e)) && settings_error(
                &settings,
            ) == Some(e)),
            (settings_error(&settings) is None && (credential matches Some(c) && !is_bounded_clean_chars(
                c@,
                MAX_CREDENTIAL_BYTES,
            ))) ==> (result matches Err(SupervisorError::InvalidCredential)),
            settings_error(&settings) is None && (credential matches Some(c) ==> is_bounded_clean_chars(
                c@,
                MAX_CREDENTIAL_BYTES,
            )) ==> result is Ok,
            result matches Ok(generation) ==> {
                let mode = generation_mode(&settings, credential);
                &&& generation.spec_mode() == mode
                &&& same_settings(&generation.spec_settings(), &settings)
                &&& generation.spec_credential_present() == credential is Some
                &&& mode == SupervisorMode::Configured ==> {
                    &&& same_settings(&generation.spec_launch_settings(), &settings)
                    &&& generation.spec_credential() == match credential {
                        Some(c) => Some(c@),
                        None => None,
                    }
                }
                &&& mode == SupervisorMode::ManagementOnly ==> {
                    let launch = generation.spec_launch_settings();
                    &&& launch.selected_models@.len() == 0
                    &&& !launch.sync_native_sessions
                    &&& launch.version == settings.version
                    &&& launch.base_url@ == settings.base_url@
                    &&& launch.action_path@ == settings.action_path@
                    &&& launch.action_path_auto == settings.action_path_auto
                    &&& launch.sync_native_auth == settings.sync_native_auth
                    &&& launch.sync_native_goals == settings.sync_native_goals
                    &&& launch.sync_native_skills == settings.sync_native_skills
                    &&& generation.spec_credential() is None
                }
            },
    {
        if let Err(e) = settings.validate() {
            return Err(SupervisorError::Settings(e));
        }
        match &credential {
            Some(c) => {
                if !validate_credential(c.as_str()) {
                    return Err(SupervisorError::InvalidCredential);
                }
            },
            None => {},
        }
        let credential_present = credential.is_some();
        let mode = if settings.selected_models.len() == 0 || credential.is_none() {
            SupervisorMode::ManagementOnly
        } else {
            SupervisorMode::Configured
        };
        let mut launch_settings = settings.duplicate();
        let mut kept = credential;
        if mode == SupervisorMode::ManagementOnly {
            launch_settings.selected_models = Vec::new();
            launch_settings.sync_native_sessions = false;
            kept = None;
        }
        let copy = settings.duplicate();
        Ok(SupervisorGeneration { mode, settings: copy, launch_settings, credential_present, credential: kept })
    }

    pub fn mode(&self) -> (result: SupervisorMode)
        ensures
            result == self.spec_mode(),
    {
        self.mode
    }

    pub fn settings(&self) -> (result: &LauncherSettings)
        ensures
            *result == self.spec_settings(),
    {
        &self.settings
    }

    pub fn launch_settings(&self) -> (result: &LauncherSettings)
        ensures
            *result == self.spec_launch_settings(),
    {
        &self.launch_settings
    }

    pub fn credential(&self) -> (result: Option<&str>)
        ensures
            match result {
                Some(c) => self.spec_credential() == Some(c@),
                None => self.spec_credential() is None,
            },
    {
        match &self.credential {
            Some(c) => Some(c.as_str()),
            None => None,
        }
    }

    pub fn credential_present(&self) -> (result: bool)
        ensures
            result == self.spec_credential_present(),
    {
        self.credential_present
    }
}

/// What the launcher child reports on its output.
#[derive(Debug, Clone, PartialEq, Eq)]
pub enum LauncherChildEvent {
    Ready { mode: SupervisorMode },
    RestartRequested,
}

/// How a run of the launcher child ended.
#[derive(Debug, Clone, PartialEq, Eq)]
pub struct LauncherChildOutcome {
    pub ready_mode: Option<SupervisorMode>,
    pub restart_requested: bool,
    pub success: bool,
    pub exit_code: Option<i32>,
    pub diagnostic: String,
}

/// Loads generations and runs the launcher child with them.
///
/// `load_log` holds what each load answered and `run_log` each run: the generation handed
/// to the child and what the run answered, oldest first. A load adds to the first and a
/// run to the second, and neither changes the other.
pub trait LauncherSupervisorBackend {
    spec fn load_log(&self) -> Seq<Result<SupervisorGeneration, String>>;

    spec fn run_log(&self) -> Seq<(SupervisorGeneration, Result<LauncherChildOutcome, String>)>;

    fn load_generation(&mut self) -> (result: Result<SupervisorGeneration, String>)
        ensures
            final(self).load_log() == old(self).load_log().push(result),
            final(self).run_log() == old(self).run_log(),
    ;

    fn run_generation(&mut self, generation: &SupervisorGeneration) -> (result: Result<LauncherChildOutcome, String>)
        ensures
            final(self).run_log() == old(self).run_log().push((*generation, result)),
            final(self).load_log() == old(self).load_log(),
    ;
}

/// The runs of one supervision, with the loads before them: each run was handed the
/// generation its load answered, and every run but the last answered an outcome that
/// supervision restarts after.
pub open spec fn supervised_runs(
    loads: Seq<Result<SupervisorGeneration, String>>,
    runs: Seq<(SupervisorGeneration, Result<LauncherChildOutcome, String>)>,
    max_restarts: usize,
) -> bool {
    &&& runs.len() <= max_restarts + 1
    &&& loads.len() == runs.len() || loads.len() == runs.len() + 1
    &&& forall|k: int| 0 <= k < runs.len() ==> #[trigger] loads[k] == Ok::<SupervisorGeneration, String>(runs[k].0)
    &&& forall|k: int| 0 <= k < runs.len() - 1 ==> restarted_after(#[trigger] runs[k], k, max_restarts)
}

/// Run `k` of a supervision answered an outcome that supervision restarts after.
pub open spec fn restarted_after(
    run: (SupervisorGeneration, Result<LauncherChildOutcome, String>),
    k: int,
    max_restarts: usize,
) -> bool {
    match run.1 {
        Ok(outcome) => supervision_answer(run.0.spec_mode(), &outcome, k as usize, max_restarts) == StepView::Restart,
        Err(_) => false,
    }
}

/// How a supervision with these loads and runs ends: with a failed load or run, it fails
/// with that message; otherwise as supervision answers the last run's outcome.
pub open spec fn supervision_ended(
    loads: Seq<Result<SupervisorGeneration, String>>,
    runs: Seq<(SupervisorGeneration, Result<LauncherChildOutcome, String>)>,
    max_restarts: usize,
    result: Result<SupervisorExit, SupervisorError>,
) -> bool {
    if loads.len() == runs.len() + 1 {
        loads.last() matches Err(message) && result == Err::<SupervisorExit, SupervisorError>(
            SupervisorError::Backend(message),
        )
    } else {
        &&& runs.len() > 0
        &&& match runs.last().1 {
            Err(message) => result == Err::<SupervisorExit, SupervisorError>(SupervisorError::Backend(message)),
            Ok(outcome) => {
                let answer = supervision_answer(
                    runs.last().0.spec_mode(),
                    &outcome,
                    (runs.len() - 1) as usize,
                    max_restarts,
                );
                &&& answer != StepView::Restart
                &&& match result {
                    Ok(exit) => exit == SupervisorExit::UserClosed && answer == StepView::Close,
                    Err(e) => !(e is Backend) && answer == step_view(Err::<Option<SupervisorExit>, SupervisorError>(e)),
                }
            },
        }
    }
}

#[derive(Debug, Clone, Copy, PartialEq, Eq, Structural)]
pub enum SupervisorExit {
    UserClosed,
}

// ----- diagnostics -----

/// The start of the line of `text` that ends at `end`.
pub open spec fn line_start(text: Seq<char>, end: int) -> int
    decreases end,
{
    if end <= 0 {
        0
    } else if text[end - 1] == '\n' {
        end
    } else {
        line_start(text, end - 1)
    }
}

pub proof fn lemma_line_start_bounds(text: Seq<char>, end: int)
    requires
        0 <= end,
    ensures
        0 <= line_start(text, end) <= end,
    decreases end,
{
    if end > 0 && text[end - 1] != '\n' {
        lemma_line_start_bounds(text, end - 1);
    }
}

/// The last line of `text.take(end)` that is not blank, trimmed.
pub open spec fn last_nonblank_line(text: Seq<char>, end: int) -> Option<Seq<char>>
    decreases end,
{
    if end <= 0 {
        None
    } else {
        let start = line_start(text, end);
        let line = text.subrange(start, end);
        if !is_blank(line) {
            Some(trimmed(line))
        } else if start <= 0 {
            None
        } else {
            proof {
                lemma_line_start_bounds(text, end);
            }
            last_nonblank_line(text, start - 1)
        }
    }
}

/// The decimal digits of a non-negative number.
pub open spec fn decimal(n: nat) -> Seq<char>
    decreases n,
{
    if n < 10 {
        seq![digit_char(n)]
    } else {
        decimal(n / 10).push(digit_char(n % 10))
    }
}

pub open spec fn digit_char(d: nat) -> char {
    if d == 0 {
        '0'
    } else if d == 1 {
        '1'
    } else if d == 2 {
        '2'
    } else if d == 3 {
        '3'
    } else if d == 4 {
        '4'
    } else if d == 5 {
        '5'
    } else if d == 6 {
        '6'
    } else if d == 7 {
        '7'
    } else if d == 8 {
        '8'
    } else {
        '9'
    }
}

/// A signed number in decimal.
pub open spec fn signed_decimal(n: int) -> Seq<char> {
    if n < 0 {
        seq!['-'] + decimal((-n) as nat)
    } else {
        decimal(n as nat)
    }
}

/// What a failed outcome is explained by: its last non-blank diagnostic line, else its
/// exit code, else a note that nothing was returned.
pub open spec fn outcome_detail(outcome: &LauncherChildOutcome) -> Seq<char> {
    match last_nonblank_line(outcome.diagnostic@, outcome.diagnostic@.len() as int) {
        Some(line) => line,
        None => match outcome.exit_code {
            Some(code) => "exit code "@ + signed_decimal(code as int),
            None => "no diagnostic was returned"@,
        },
    }
}

fn digit_of(d: u64) -> (result: char)
    requires
        d < 10,
    ensures
        result == digit_char(d as nat),
{
    if d == 0 {
        '0'
    } else if d == 1 {
        '1'
    } else if d == 2 {
        '2'
    } else if d == 3 {
        '3'
    } else if d == 4 {
        '4'
    } else if d == 5 {
        '5'
    } else if d == 6 {
        '6'
    } else if d == 7 {
        '7'
    } else if d == 8 {
        '8'
    } else {
        '9'
    }
}

fn decimal_chars(n: u64) -> (result: Vec<char>)
    ensures
        result@ == decimal(n as nat),
    decreases n,
{
    if n < 10 {
        let mut out = Vec::new();
        out.push(digit_of(n));
        proof {
            assert(out@ =~= seq![digit_char(n as nat)]);
        }
        out
    } else {
        let mut out = decimal_chars(n / 10);
        out.push(digit_of(n % 10));
        out
    }
}

fn signed_decimal_text(code: i32) -> (result: Vec<char>)
    ensures
        result@ == signed_decimal(code as int),
{
    if code < 0 {
        let magnitude: u64 = (-(code as i64)) as u64;
        let digits = decimal_chars(magnitude);
        let mut out = Vec::new();
        out.push('-');
        let ghost start = out@;
        for i in 0..digits.len()
            invariant
                out@ == start + digits@.take(i as int),
        {
            proof {
                assert(start + digits@.take(i + 1) =~= (start + digits@.take(i as int)).push(digits@[i as int]));
            }
            out.push(digits[i]);
        }
        proof {
            assert(digits@.take(digits@.len() as int) =~= digits@);
            assert(start =~= seq!['-']);
        }
        out
    } else {
        decimal_chars(code as u64)
    }
}

fn is_blank_range(chars: &[char], start: usize, end: usize) -> (result: bool)
    requires
        start <= end <= chars@.len(),
    ensures
        result == is_blank(chars@.subrange(start as int, end as int)),
{
    for i in start..end
        invariant
            end <= chars@.len(),
            forall|t: int| start <= t < i ==> is_whitespace_char(#[trigger] chars@[t]),
    {
        if !crate::text::char_is_whitespace(chars[i]) {
            proof {
                assert(chars@.subrange(start as int, end as int)[i - start] == chars@[i as int]);
            }
            return false;
        }
    }
    proof {
        assert forall|t: int| 0 <= t < end - start implies is_whitespace_char(
            #[trigger] chars@.subrange(start as int, end as int)[t],
        ) by {
            assert(chars@.subrange(start as int, end as int)[t] == chars@[start + t]);
        }
    }
    true
}

fn line_start_of(chars: &[char], end: usize) -> (result: usize)
    requires
        end <= chars@.len(),
    ensures
        result == line_start(chars@, end as int),
{
    let mut i = end;
    while i > 0 && chars[i - 1] != '\n'
        invariant
            i <= end <= chars@.len(),
            line_start(chars@, end as int) == line_start(chars@, i as int),
        decreases i,
    {
        i -= 1;
    }
    i
}

/// The text that explains a failed outcome.
pub fn outcome_detail_text(outcome: &LauncherChildOutcome) -> (result: String)
    ensures
        result@ == outcome_detail(outcome),
{
    let chars = chars_of(outcome.diagnostic.as_str());
    let mut end = chars.len();
    while end > 0
        invariant
            end <= chars@.len(),
            chars@ == outcome.diagnostic@,
            last_nonblank_line(chars@, chars@.len() as int) == last_nonblank_line(chars@, end as int),
        decreases end,
    {
        let start = line_start_of(chars.as_slice(), end);
        proof {
            lemma_line_start_bounds(chars@, end as int);
        }
        if !is_blank_range(chars.as_slice(), start, end) {
            let line = slice_chars(chars.as_slice(), start, end);
            let text = string_from_chars(line.as_slice());
            return string_from_chars(crate::text::trim_chars(text.as_str()).as_slice());
        }
        if start == 0 {
            proof {
                assert(last_nonblank_line(chars@, end as int) is None);
                assert(last_nonblank_line(chars@, 0) is None);
            }
            end = 0;
        } else {
            end = start - 1;
        }
    }
    proof {
        assert(last_nonblank_line(chars@, chars@.len() as int) is None);
    }
    match outcome.exit_code {
        Some(code) => {
            let mut out = String::from_str("exit code ");
            let digits = signed_decimal_text(code);
            push_chars(&mut out, digits.as_slice());
            out
        },
        None => String::from_str("no diagnostic was returned"),
    }
}

// ----- answering outcomes -----

/// How supervision answers an outcome, as values.
pub ghost enum StepView {
    Restart,
    Close,
    NotReady(Seq<char>),
    RestartFailed(Seq<char>),
    RestartLimitExceeded,
    UnexpectedExit(Seq<char>),
    Other,
}

pub open spec fn step_view(result: Result<Option<SupervisorExit>, SupervisorError>) -> StepView {
    match result {
        Ok(None) => StepView::Restart,
        Ok(Some(_)) => StepView::Close,
        Err(SupervisorError::NotReady(d)) => StepView::NotReady(d@),
        Err(SupervisorError::RestartFailed(d)) => StepView::RestartFailed(d@),
        Err(SupervisorError::RestartLimitExceeded) => StepView::RestartLimitExceeded,
        Err(SupervisorError::UnexpectedExit(d)) => StepView::UnexpectedExit(d@),
        Err(_) => StepView::Other,
    }
}

/// How supervision answers an outcome of a run in `mode` after `restarts` restarts: a
/// child that did not report readiness for the mode fails; a restart request is granted
/// when the child succeeded and restarts remain; a successful exit closes; any other exit
/// fails. Failures carry the outcome's detail.
pub open spec fn supervision_answer(
    mode: SupervisorMode,
    outcome: &LauncherChildOutcome,
    restarts: usize,
    max_restarts: usize,
) -> StepView {
    if outcome.ready_mode != Some(mode) {
        StepView::NotReady(outcome_detail(outcome))
    } else if outcome.restart_requested {
        if !outcome.success {
            StepView::RestartFailed(outcome_detail(outcome))
        } else if restarts >= max_restarts {
            StepView::RestartLimitExceeded
        } else {
            StepView::Restart
        }
    } else if outcome.success {
        StepView::Close
    } else {
        StepView::UnexpectedExit(outcome_detail(outcome))
    }
}

/// A child is only ever trusted once it reported readiness for the requested mode: any other
/// outcome, one that reported nothing included, fails as not ready. Supervision closes
/// only on a ready child that exited successfully without asking for a restart, and
/// restarts only a ready child that succeeded, asked for it, and has restarts left;
/// everything else is a failure.
pub proof fn lemma_only_ready_children_close(
    mode: SupervisorMode,
    outcome: &LauncherChildOutcome,
    restarts: usize,
    max_restarts: usize,
)
    ensures
        outcome.ready_mode != Some(mode) ==> supervision_answer(mode, outcome, restarts, max_restarts) is NotReady,
        supervision_answer(mode, outcome, restarts, max_restarts) is NotReady ==> outcome.ready_mode != Some(mode),
        supervision_answer(mode, outcome, restarts, max_restarts) == StepView::Close <==> (outcome.ready_mode == Some(
            mode,
        ) && outcome.success && !outcome.restart_requested),
        supervision_answer(mode, outcome, restarts, max_restarts) == StepView::Restart <==> (outcome.ready_mode == Some(
            mode,
        ) && outcome.success && outcome.restart_requested && restarts < max_restarts),
        supervision_answer(mode, outcome, restarts, max_restarts) == StepView::RestartLimitExceeded <==> (
        outcome.ready_mode == Some(mode) && outcome.success && outcome.restart_requested && restarts >= max_restarts),
        supervision_answer(mode, outcome, restarts, max_restarts) is RestartFailed <==> (outcome.ready_mode == Some(mode)
            && !outcome.success && outcome.restart_requested),
        supervision_answer(mode, outcome, restarts, max_restarts) is UnexpectedExit <==> (outcome.ready_mode == Some(
            mode,
        ) && !outcome.success && !outcome.restart_requested),
{
}

/// Answers an outcome: `Ok(None)` to restart, `Ok(Some(exit))` to close, or the failure.
pub fn supervision_step(
    mode: SupervisorMode,
    outcome: &LauncherChildOutcome,
    restarts: usize,
    max_restarts: usize,
) -> (result: Result<Option<SupervisorExit>, SupervisorError>)
    ensures
        step_view(result) == supervision_answer(mode, outcome, restarts, max_restarts),
        result matches Ok(Some(exit)) ==> exit == SupervisorExit::UserClosed,
{
    if outcome.ready_mode != Some(mode) {
        return Err(SupervisorError::NotReady(outcome_detail_text(outcome)));
    }
    if outcome.restart_requested {
        if !outcome.success {
            return Err(SupervisorError::RestartFailed(outcome_detail_text(outcome)));
        }
        if restarts >= max_restarts {
            return Err(SupervisorError::RestartLimitExceeded);
        }
        return Ok(None);
    }
    if outcome.success {
        return Ok(Some(SupervisorExit::UserClosed));
    }
    Err(SupervisorError::UnexpectedExit(outcome_detail_text(outcome)))
}

/// Runs generations of the launcher child until one closes successfully, granting at most
/// `max_restarts` restarts.
pub fn supervise_launcher<B: LauncherSupervisorBackend>(backend: &mut B, max_restarts: usize) -> (result: Result<
    SupervisorExit,
    SupervisorError,
>)
    ensures
        final(backend).load_log().len() >= old(backend).load_log().len(),
        final(backend).run_log().len() >= old(backend).run_log().len(),
        final(backend).load_log().take(old(backend).load_log().len() as int) == old(backend).load_log(),
        final(backend).run_log().take(old(backend).run_log().len() as int) == old(backend).run_log(),
        supervised_runs(
            final(backend).load_log().skip(old(backend).load_log().len() as int),
            final(backend).run_log().skip(old(backend).run_log().len() as int),
            max_restarts,
        ),
        supervision_ended(
            final(backend).load_log().skip(old(backend).load_log().len() as int),
            final(backend).run_log().skip(old(backend).run_log().len() as int),
            max_restarts,
            result,
        ),
{
    let mut restarts: usize = 0;
    let ghost loads0 = backend.load_log();
    let ghost runs0 = backend.run_log();
    loop
        invariant
            restarts <= max_restarts,
            loads0 == old(backend).load_log(),
            runs0 == old(backend).run_log(),
            backend.load_log().len() == loads0.len() + restarts,
            backend.run_log().len() == runs0.len() + restarts,
            backend.load_log().take(loads0.len() as int) == loads0,
            backend.run_log().take(runs0.len() as int) == runs0,
            forall|k: int|
                0 <= k < restarts ==> #[trigger] backend.load_log().skip(loads0.len() as int)[k] == Ok::<
                    SupervisorGeneration,
                    String,
                >(backend.run_log().skip(runs0.len() as int)[k].0),
            forall|k: int|
                0 <= k < restarts ==> restarted_after(
                    #[trigger] backend.run_log().skip(runs0.len() as int)[k],
                    k,
                    max_restarts,
                ),
        decreases max_restarts - restarts,
    {
        let ghost loads_before = backend.load_log();
        let ghost runs_before = backend.run_log();
        let generation = match backend.load_generation() {
            Ok(generation) => generation,
            Err(message) => {
                proof {
                    let loads = backend.load_log().skip(loads0.len() as int);
                    let runs = backend.run_log().skip(runs0.len() as int);
                    assert(loads =~= loads_before.skip(loads0.len() as int).push(
                        Err::<SupervisorGeneration, String>(message),
                    ));
                    assert(runs =~= runs_before.skip(runs0.len() as int));
                    assert(backend.load_log().take(loads0.len() as int) =~= loads0);
                    assert forall|k: int| 0 <= k < runs.len() implies #[trigger] loads[k] == Ok::<
                        SupervisorGeneration,
                        String,
                    >(runs[k].0) by {
                        assert(loads[k] == loads_before.skip(loads0.len() as int)[k]);
                    }
                }
                return Err(SupervisorError::Backend(message));
            },
        };
        let ghost loads_mid = backend.load_log();
        let answer = backend.run_generation(&generation);
        proof {
            let loads = backend.load_log().skip(loads0.len() as int);
            let runs = backend.run_log().skip(runs0.len() as int);
            assert(loads =~= loads_before.skip(loads0.len() as int).push(Ok::<SupervisorGeneration, String>(generation)));
            assert(runs =~= runs_before.skip(runs0.len() as int).push((generation, answer)));
            assert(backend.load_log().take(loads0.len() as int) =~= loads0);
            assert(backend.run_log().take(runs0.len() as int) =~= runs0);
            assert forall|k: int| 0 <= k < runs.len() implies #[trigger] loads[k] == Ok::<SupervisorGeneration, String>(
                runs[k].0,
            ) by {
                if k < restarts {
                    assert(loads[k] == loads_before.skip(loads0.len() as int)[k]);
                    assert(runs[k] == runs_before.skip(runs0.len() as int)[k]);
                }
            }
            assert forall|k: int| 0 <= k < restarts implies restarted_after(#[trigger] runs[k], k, max_restarts) by {
                assert(runs[k] == runs_before.skip(runs0.len() as int)[k]);
            }
        }
        let outcome = match answer {
            Ok(outcome) => outcome,
            Err(message) => {
                return Err(SupervisorError::Backend(message));
            },
        };
        match supervision_step(generation.mode(), &outcome, restarts, max_restarts) {
            Ok(None) => {
                restarts = restarts + 1;
            },
            Ok(Some(exit)) => {
                return Ok(exit);
            },
            Err(e) => {
                return Err(e);
            },
        }
    }
}

/// The fields of a line that the launcher child printed, as read from its JSON.
#[derive(Debug, Clone, PartialEq, Eq)]
pub struct ChildEventFields {
    pub host: Option<String>,
    pub status: Option<String>,
    pub injection_enabled: Option<bool>,
    pub mode: Option<SupervisorMode>,
}

pub ghost enum EventView {
    Ready(SupervisorMode),
    RestartRequested,
}

pub open spec fn event_view(event: Option<LauncherChildEvent>) -> Option<EventView> {
    match event {
        Some(LauncherChildEvent::Ready { mode }) => Some(EventView::Ready(mode)),
        Some(LauncherChildEvent::RestartRequested) => Some(EventView::RestartRequested),
        None => None,
    }
}

/// The event a line reports: only lines of the direct host count; `ready` with injection
/// enabled and a mode reports readiness, `restart_requested` a restart request.
pub open spec fn child_event_of(fields: &ChildEventFields) -> Option<EventView> {
    if !(fields.host matches Some(host) && host@ == "direct"@) {
        None
    } else {
        match fields.status {
            Some(status) => if status@ == "ready"@ && fields.injection_enabled == Some(true) {
                match fields.mode {
                    Some(mode) => Some(EventView::Ready(mode)),
                    None => None,
                }
            } else if status@ == "restart_requested"@ {
                Some(EventView::RestartRequested)
            } else {
                None
            },
            None => None,
        }
    }
}

fn is_text(value: &String, expected: &str) -> (result: bool)
    ensures
        result == (value@ == expected@),
{
    let v = chars_of(value.as_str());
    let e = chars_of(expected);
    crate::text::chars_equal(v.as_slice(), e.as_slice())
}

/// The event that a line of the launcher child reports, if any.
pub fn launcher_child_event(fields: &ChildEventFields) -> (result: Option<LauncherChildEvent>)
    ensures
        event_view(result) == child_event_of(fields),
{
    match &fields.host {
        Some(host) => {
            if !is_text(host, "direct") {
                return None;
            }
        },
        None => {
            return None;
        },
    }
    match &fields.status {
        Some(status) => {
            if is_text(status, "ready") && fields.injection_enabled == Some(true) {
                match fields.mode {
                    Some(mode) => Some(LauncherChildEvent::Ready { mode }),
                    None => None,
                }
            } else if is_text(status, "restart_requested") {
                Some(LauncherChildEvent::RestartRequested)
            } else {
                None
            }
        },
        None => None,
    }
}

} // verus!
