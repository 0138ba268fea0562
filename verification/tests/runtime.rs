use codex_administrator::official_host::{
    validate_launchable_official_chatgpt_executable, validate_official_chatgpt_executable,
    OfficialHostError,
};
use codex_administrator::runtime::{RuntimeError, RuntimeKind, RuntimeLaunchSpec, RuntimeProtocol};

#[test]
fn grok_runtime_speaks_acp_over_stdio() {
    let spec = RuntimeLaunchSpec::grok(r"C:\tools\grok.exe".into());
    assert_eq!(spec.kind, RuntimeKind::Grok);
    assert_eq!(spec.args, vec!["agent", "--no-leader", "stdio"]);
    assert_eq!(spec.protocol, RuntimeProtocol::AcpV1JsonLines);
    assert!(!spec.use_shell);
}

#[test]
fn codex_runtime_speaks_the_app_server_protocol() {
    let spec = RuntimeLaunchSpec::codex(r"C:\tools\codex.exe".into());
    assert_eq!(spec.kind, RuntimeKind::Codex);
    assert_eq!(spec.args, vec!["app-server", "--stdio"]);
    assert_eq!(spec.protocol, RuntimeProtocol::CodexAppServerJsonLines);
}

#[test]
fn runtime_executable_must_be_an_absolute_exe() {
    assert_eq!(RuntimeLaunchSpec::validate_executable_path(r"C:\tools\grok.EXE"), Ok(()));
    assert_eq!(RuntimeLaunchSpec::validate_executable_path(r"C:\tools\grok.exe\"), Ok(()));
    assert_eq!(
        RuntimeLaunchSpec::validate_executable_path("grok.exe"),
        Err(RuntimeError::NotAbsolute)
    );
    assert_eq!(
        RuntimeLaunchSpec::validate_executable_path(r"C:tools\grok.exe"),
        Err(RuntimeError::NotAbsolute)
    );
    assert_eq!(
        RuntimeLaunchSpec::validate_executable_path(r"C:\tools\grok"),
        Err(RuntimeError::NotWindowsExecutable)
    );
    assert_eq!(
        RuntimeLaunchSpec::validate_executable_path(r"C:\tools\.exe"),
        Err(RuntimeError::NotWindowsExecutable)
    );
    assert_eq!(
        RuntimeLaunchSpec::validate_executable_path(r"C:\tools\grok.exe\.."),
        Err(RuntimeError::NotWindowsExecutable)
    );
}

const PACKAGED: &str =
    r"C:\Program Files\WindowsApps\OpenAI.Codex_26.1.0.0_x64__2p2nqsd0c76g0\app\ChatGPT.exe";

#[test]
fn packaged_official_executable_is_accepted_and_launchable() {
    assert_eq!(validate_official_chatgpt_executable(PACKAGED, true), Ok(()));
    assert_eq!(validate_launchable_official_chatgpt_executable(PACKAGED, true), Ok(()));
    let on_volume = r"D:\WindowsApps\OpenAI.Codex_1_x64__2p2nqsd0c76g0\APP\chatgpt.EXE";
    assert_eq!(validate_launchable_official_chatgpt_executable(on_volume, true), Ok(()));
}

#[test]
fn unofficial_executables_are_refused() {
    assert_eq!(
        validate_official_chatgpt_executable(PACKAGED, false),
        Err(OfficialHostError::ExecutableMissing)
    );
    assert_eq!(
        validate_official_chatgpt_executable(
            r"C:\Program Files\WindowsApps\OpenAI.Codex_1_x64__2p2nqsd0c76g0\bin\ChatGPT.exe",
            true
        ),
        Err(OfficialHostError::NotPackagedExecutable)
    );
    assert_eq!(
        validate_official_chatgpt_executable(
            r"C:\Program Files\WindowsApps\Other_1_x64__2p2nqsd0c76g0\app\ChatGPT.exe",
            true
        ),
        Err(OfficialHostError::NotInOfficialPackage)
    );
    assert_eq!(
        validate_official_chatgpt_executable(
            r"C:\Apps\OpenAI.Codex_1_x64__2p2nqsd0c76g0\app\ChatGPT.exe",
            true
        ),
        Err(OfficialHostError::NotInOfficialPackage)
    );
    assert_eq!(
        validate_launchable_official_chatgpt_executable(
            r"D:\Other\WindowsApps\OpenAI.Codex_1_x64__2p2nqsd0c76g0\app\ChatGPT.exe",
            true
        ),
        Err(OfficialHostError::NotSystemPackageRoot)
    );
}
