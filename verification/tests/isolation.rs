use std::collections::BTreeSet;

use codex_administrator::isolation::{
    join_child, normalized_components, paths_equal, paths_overlap, DirectIsolationContract,
    IsolatedRuntimeObservation, IsolationError, IsolationPathRole, PathError,
};

const EXECUTABLE: &str =
    r"C:\Program Files\WindowsApps\OpenAI.Codex_26.1.0.0_x64__2p2nqsd0c76g0\app\ChatGPT.exe";
const DAILY_PROFILE: &str = r"C:\Users\me\AppData\Roaming\ChatGPT";
const DAILY_HOME: &str = r"C:\Users\me\.codex";
const ROOT: &str = r"C:\Users\me\AppData\Local\CodexAdministrator\instances\s1";
const ISOLATED_PROFILE: &str = r"C:\Users\me\AppData\Local\CodexAdministrator\instances\s1\profile";
const ISOLATED_HOME: &str = r"C:\Users\me\AppData\Local\CodexAdministrator\instances\s1\codex-home";

fn contract_with(
    executable: &str,
    daily_profile: &str,
    isolated_profile: &str,
    daily_home: &str,
    isolated_home: &str,
    port: u16,
) -> Result<DirectIsolationContract, IsolationError> {
    DirectIsolationContract::new(
        executable.into(),
        daily_profile.into(),
        isolated_profile.into(),
        daily_home.into(),
        isolated_home.into(),
        port,
    )
}

fn contract() -> DirectIsolationContract {
    contract_with(EXECUTABLE, DAILY_PROFILE, ISOLATED_PROFILE, DAILY_HOME, ISOLATED_HOME, 9333).unwrap()
}

fn texts(components: Vec<Vec<char>>) -> Vec<String> {
    components.into_iter().map(|c| c.into_iter().collect()).collect()
}

#[test]
fn components_are_labelled_lowercased_and_trimmed() {
    assert_eq!(
        texts(normalized_components(r"C:\Users\Me\Foo. ").unwrap()),
        vec!["disk:c", "\\", "users", "me", "foo"]
    );
    assert_eq!(
        texts(normalized_components(r"\\Server\Share\Dir").unwrap()),
        vec!["unc:server\\share", "\\", "dir"]
    );
    assert_eq!(
        texts(normalized_components(r"\\?\C:\Data").unwrap()),
        vec!["disk:c", "\\", "data"]
    );
    assert_eq!(
        texts(normalized_components(r"\\.\PIPE\x").unwrap()),
        vec!["device:pipe", "\\", "x"]
    );
    assert_eq!(
        texts(normalized_components(r"C:/a/./b/").unwrap()),
        vec!["disk:c", "\\", "a", "b"]
    );
}

#[test]
fn relative_paths_and_parent_components_are_refused() {
    assert_eq!(normalized_components(r"foo\bar"), Err(PathError::NotAbsolute));
    assert_eq!(normalized_components(r"C:foo"), Err(PathError::NotAbsolute));
    assert_eq!(normalized_components(r"\foo"), Err(PathError::NotAbsolute));
    assert_eq!(normalized_components(r"C:\a\..\b"), Err(PathError::RelativeComponent));
    assert_eq!(normalized_components(r"\\?\C:\a\.\b"), Err(PathError::RelativeComponent));
}

#[test]
fn overlap_is_by_whole_components_and_ignores_case() {
    assert_eq!(paths_overlap(r"C:\A", r"c:\a\b"), Ok(true));
    assert_eq!(paths_overlap(r"C:\a\b", r"C:\A"), Ok(true));
    assert_eq!(paths_overlap(r"C:\a", r"C:\ab"), Ok(false));
    assert_eq!(paths_equal(r"C:\a\B\", r"c:/A/b"), Ok(true));
    assert_eq!(paths_equal(r"C:\a", r"D:\a"), Ok(false));
    assert_eq!(paths_overlap(r"C:\a", "b"), Err(PathError::NotAbsolute));
}

#[test]
fn joining_a_child_adds_a_separator_only_when_needed() {
    assert_eq!(join_child(r"C:\a", &['p']), r"C:\a\p");
    assert_eq!(join_child(r"C:\a\", &['p']), r"C:\a\p");
    assert_eq!(join_child(r"\\?\C:", &['p']), r"\\?\C:\p");
}

#[test]
fn contract_accepts_separate_isolated_paths() {
    let contract = contract();
    assert_eq!(contract.executable(), EXECUTABLE);
    assert_eq!(contract.isolated_profile(), ISOLATED_PROFILE);
    assert_eq!(contract.cdp_port(), 9333);
}

#[test]
fn contract_refuses_invalid_paths_ports_and_overlaps() {
    assert_eq!(
        contract_with("ChatGPT.exe", DAILY_PROFILE, ISOLATED_PROFILE, DAILY_HOME, ISOLATED_HOME, 9333),
        Err(IsolationError::InvalidPath {
            role: IsolationPathRole::OfficialExecutable,
            reason: PathError::NotAbsolute
        })
    );
    assert_eq!(
        contract_with(EXECUTABLE, DAILY_PROFILE, ISOLATED_PROFILE, DAILY_HOME, ISOLATED_HOME, 1023),
        Err(IsolationError::ReservedCdpPort)
    );
    assert_eq!(
        contract_with(
            EXECUTABLE,
            DAILY_PROFILE,
            r"C:\Users\me\AppData\Roaming\ChatGPT\isolated",
            DAILY_HOME,
            ISOLATED_HOME,
            9333
        ),
        Err(IsolationError::IsolatedOverlapsDaily {
            isolated: IsolationPathRole::IsolatedProfile,
            daily: IsolationPathRole::DailyProfile
        })
    );
    assert_eq!(
        contract_with(EXECUTABLE, DAILY_PROFILE, ISOLATED_PROFILE, DAILY_HOME, ISOLATED_PROFILE, 9333),
        Err(IsolationError::IsolatedPathsShared)
    );
}

#[test]
fn owned_root_must_hold_both_isolated_paths_as_children() {
    let contract = contract();
    assert_eq!(contract.verify_owned_root(ROOT), Ok(()));
    assert_eq!(contract.verify_owned_root(&format!("{ROOT}\\")), Ok(()));
    assert_eq!(
        contract.verify_owned_root(r"C:\Users\me"),
        Err(IsolationError::OwnedRootOverlapsDaily {
            daily: IsolationPathRole::DailyProfile
        })
    );
    assert_eq!(
        contract.verify_owned_root(r"D:\elsewhere"),
        Err(IsolationError::NotChildrenOfOwnedRoot)
    );
    assert_eq!(
        contract.verify_owned_root("relative"),
        Err(IsolationError::InvalidPath {
            role: IsolationPathRole::OwnedRoot,
            reason: PathError::NotAbsolute
        })
    );
}

fn observation() -> IsolatedRuntimeObservation {
    IsolatedRuntimeObservation {
        preexisting_pids: BTreeSet::from([10, 11]),
        owned_pids: BTreeSet::from([20, 21]),
        cdp_listener_pid: 21,
        daily_root_alive: true,
        cdp_port: 9333,
        cdp_target_url: Some("app://-/index.html".into()),
    }
}

#[test]
fn runtime_observation_must_match_the_contract() {
    let contract = contract();
    assert_eq!(contract.verify_runtime(&observation()), Ok(()));

    let mut gone = observation();
    gone.daily_root_alive = false;
    assert_eq!(contract.verify_runtime(&gone), Err(IsolationError::DailyInstanceGone));

    let mut empty = observation();
    empty.owned_pids.clear();
    assert_eq!(contract.verify_runtime(&empty), Err(IsolationError::EmptyProcessTree));

    let mut shared = observation();
    shared.owned_pids.insert(11);
    assert_eq!(contract.verify_runtime(&shared), Err(IsolationError::PreexistingProcessOwned));

    let mut listener = observation();
    listener.cdp_listener_pid = 99;
    assert_eq!(contract.verify_runtime(&listener), Err(IsolationError::CdpListenerNotOwned));

    let mut port = observation();
    port.cdp_port = 9334;
    assert_eq!(contract.verify_runtime(&port), Err(IsolationError::CdpPortMismatch));

    let mut target = observation();
    target.cdp_target_url = Some("https://example.com".into());
    assert_eq!(contract.verify_runtime(&target), Err(IsolationError::UnexpectedCdpTarget));
    target.cdp_target_url = None;
    assert_eq!(contract.verify_runtime(&target), Err(IsolationError::UnexpectedCdpTarget));
}
