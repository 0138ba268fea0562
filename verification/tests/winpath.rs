use codex_administrator::winpath::{extension_of_name, parse_windows_path, path_is_absolute, path_pieces_of, PrefixKind};

fn chars(text: &str) -> Vec<char> {
    text.chars().collect()
}

fn text(chars: &[char]) -> String {
    chars.iter().collect()
}

#[test]
fn windows_paths_are_absolute_only_with_a_rooted_prefix() {
    assert!(path_is_absolute(r"C:\Users\me"));
    assert!(path_is_absolute("C:/Users/me"));
    assert!(path_is_absolute(r"\\server\share\file"));
    assert!(path_is_absolute(r"\\?\C:\Users"));
    assert!(!path_is_absolute(r"C:Users"));
    assert!(!path_is_absolute(r"\Users\me"));
    assert!(!path_is_absolute("Users/me"));
    assert!(!path_is_absolute(""));
}

#[test]
fn parsed_paths_split_prefix_root_and_parts() {
    let parsed = parse_windows_path(&chars(r"C:\Users\.\me\\docs\"));
    let (kind, first, _) = parsed.prefix.clone().unwrap();
    assert_eq!(kind, PrefixKind::Disk);
    assert_eq!(text(&first), "C");
    assert!(parsed.physical_root);
    assert!(!parsed.verbatim);
    let parts: Vec<String> = parsed.parts.iter().map(|p| text(p)).collect();
    assert_eq!(parts, vec!["Users", ".", "me", "docs"]);
    let pieces: Vec<Option<String>> = path_pieces_of(&chars(r"C:\Users\.\me\..\docs")).iter().map(|p| p.as_ref().map(|p| text(p))).collect();
    assert_eq!(pieces, vec![Some("Users".to_string()), Some("me".to_string()), None, Some("docs".to_string())]);
    let parsed = parse_windows_path(&chars(r"\\server\share\dir"));
    let (kind, first, second) = parsed.prefix.unwrap();
    assert_eq!(kind, PrefixKind::Unc);
    assert_eq!((text(&first), text(&second)), ("server".to_string(), "share".to_string()));
    let parsed = parse_windows_path(&chars("relative/./a"));
    assert!(parsed.prefix.is_none());
    let parts: Vec<String> = parsed.parts.iter().map(|p| text(p)).collect();
    assert_eq!(parts, vec!["relative", ".", "a"]);
    let pieces = path_pieces_of(&chars("./a"));
    assert_eq!(pieces.len(), 2);
    assert!(pieces[0].is_none());
}

#[test]
fn extensions_follow_the_last_dot_of_a_name() {
    assert_eq!(extension_of_name(&chars("codex.exe")).map(|e| text(&e)).as_deref(), Some("exe"));
    assert_eq!(extension_of_name(&chars("archive.tar.gz")).map(|e| text(&e)).as_deref(), Some("gz"));
    assert_eq!(extension_of_name(&chars(".hidden")), None);
    assert_eq!(extension_of_name(&chars("plain")), None);
    assert_eq!(extension_of_name(&chars("..")), None);
    assert_eq!(extension_of_name(&chars("name.")).map(|e| text(&e)).as_deref(), Some(""));
}
