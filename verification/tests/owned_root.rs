use codex_administrator::owned_root::{git_arguments_reference_owned_root, normalized_path_text};

const ROOT: &str = r"C:\Users\Example\Instance";

fn git(line: &str) -> bool {
    let arguments: Vec<String> = line.split_whitespace().map(String::from).collect();
    git_arguments_reference_owned_root(&arguments, ROOT)
}

#[test]
fn git_command_lines_that_reach_the_owned_root() {
    assert!(git(r"git -C c:/users/example/instance/codex-home fetch"));
    assert!(git(r"git --shallow-file C:/Users/Example/Instance/repo/.git/shallow.lock index-pack"));
    assert!(git(r"git -C \\?\C:\Users\Example\Instance\repo fetch"));
    assert!(git(r"git -C C:\Users\Example -C Instance status"));
    assert!(git(r"git -C C:\ -C Users\Example\Instance status"));
    assert!(!git(r"git -C C:\Users\Example\Instance -C .. status"));
    assert!(!git(r"git --git-dir=C:\Users\Example\Instance\repo --git-dir=C:\outside status"));
    assert!(git(r"git --git-dir=C:\outside --git-dir=C:\Users\Example\Instance\repo status"));
    assert!(git(r"git -C C:\Users\Example --git-dir=Instance\repo\.git status"));
    assert!(git(r"git -C C:\Users\Example --work-tree=Instance\repo status"));
    assert!(git(r"git -C C:\Users\Example --shallow-file=Instance\repo\.git\shallow index-pack"));
    assert!(!git(r"git -C c:/users/example/instance-other fetch"));
    assert!(!git(r"git -- -C C:\Users\Example\Instance fetch"));
    assert!(!git(r"git --message -C C:\Users\Example\Instance"));
    assert!(git(r"git -c core.x=1 --no-pager -C C:\Users\Example\Instance status"));
    assert!(!git(r"git -C"));
}

#[test]
fn paths_normalize_as_the_runtime_compares_them() {
    let text = |path: &str| normalized_path_text(&path.chars().collect::<Vec<char>>()).map(|t| t.into_iter().collect::<String>());
    assert_eq!(text(r"C:/Users/Example/./Instance/repo/.."), Some(r"c:\users\example\instance".to_string()));
    assert_eq!(text(r"\\?\C:\Users"), Some(r"c:\users".to_string()));
    assert_eq!(text(r"\\?\UNC\Server\Share\x"), Some(r"\\server\share\x".to_string()));
    assert_eq!(text(r"C:\.."), None);
    assert_eq!(text(r"relative\path"), None);
}
