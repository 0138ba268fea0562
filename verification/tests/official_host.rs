use codex_administrator::official_host::{find_official_chatgpt_executable, HostSearchError, RunningHostCandidate};

const PACKAGED: &str = r"C:\Program Files\WindowsApps\OpenAI.Codex_26.1.0.0_x64__2p2nqsd0c76g0\app\ChatGPT.exe";
const OTHER_VERSION: &str = r"C:\Program Files\WindowsApps\OpenAI.Codex_26.2.0.0_x64__2p2nqsd0c76g0\app\ChatGPT.exe";

fn running(pid: u32, path: Option<&str>) -> RunningHostCandidate {
    RunningHostCandidate { pid, image_path: path.map(String::from), is_file: true }
}

#[test]
fn one_running_official_package_is_found() {
    let upper = r"C:\PROGRAM FILES\windowsapps\OpenAI.Codex_26.1.0.0_x64__2p2nqsd0c76g0\APP\chatgpt.EXE".to_string();
    let candidates = vec![
        running(1, None),
        running(2, Some(r"C:\Users\me\ChatGPT.exe")),
        running(3, Some(PACKAGED)),
        running(4, Some(&upper)),
    ];
    assert_eq!(find_official_chatgpt_executable(&candidates).unwrap(), upper);
}

#[test]
fn no_or_several_official_packages_are_refused() {
    assert_eq!(find_official_chatgpt_executable(&[]), Err(HostSearchError::NoneRunning));
    assert_eq!(
        find_official_chatgpt_executable(&[running(1, Some(r"C:\Users\me\ChatGPT.exe"))]),
        Err(HostSearchError::NoneRunning)
    );
    let mut missing = running(1, Some(PACKAGED));
    missing.is_file = false;
    assert_eq!(find_official_chatgpt_executable(&[missing]), Err(HostSearchError::NoneRunning));
    assert_eq!(
        find_official_chatgpt_executable(&[running(1, Some(PACKAGED)), running(2, Some(OTHER_VERSION))]),
        Err(HostSearchError::MultipleVersionsRunning)
    );
}
