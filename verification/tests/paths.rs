use ashell::paths::{
    compact_local_path, decode_local_path_title, initial_local_title, is_absolute, join_path,
    path_from_bytes, relative_to_home,
};

fn home(path: &str) -> Option<String> {
    Some(path.to_string())
}

#[test]
fn the_home_directory_is_a_tilde() {
    let h = home("/home/u");

    assert_eq!(compact_local_path("/home/u", &h, false), "~");
    assert_eq!(compact_local_path("/home/u/", &h, false), "~");
    assert_eq!(compact_local_path("/home/u/a/b", &h, false), "~/a/b");
    assert_eq!(compact_local_path("/home/user", &h, false), "/home/user");
    assert_eq!(compact_local_path("/etc", &h, false), "/etc");
    assert_eq!(compact_local_path("/home/u", &None, false), "/home/u");
    let unnamed = Some(String::new());
    assert_eq!(compact_local_path("/home/u", &unnamed, false), "~//home/u");
    assert_eq!(compact_local_path("", &unnamed, false), "~");
}

#[test]
fn relative_paths_agree_with_the_standard_library() {
    let paths = [
        "/home/u", "/home/u/", "/home/u//a/./b/", "/home/u/../v", "/home", "home/u/a", "", "/", ".",
        "./", "./a/.", "/./", "..", "a", "a/b", "//home//u",
    ];
    for path in paths {
        for home in ["/home/u", "/home/u/", "/", "", ".", "./", "a", "./a", ".."] {
            let expected = std::path::Path::new(path)
                .strip_prefix(home)
                .ok()
                .map(|rest| rest.to_string_lossy().to_string());
            assert_eq!(relative_to_home(path, home, false), expected, "{path} below {home}");
        }
    }
}

#[test]
fn joined_paths_agree_with_the_standard_library() {
    for directory in ["/home/u", "/home/u/", "/", "", "a"] {
        for path in ["x", "/x", "", "./x", "../x"] {
            let expected = std::path::Path::new(directory).join(path);
            assert_eq!(join_path(directory, path, false), expected.to_string_lossy());
        }
    }
}

#[test]
fn windows_paths_have_prefixes() {
    let below = |path: &str, home: &str| relative_to_home(path, home, true);

    assert_eq!(below("C:", "C:\\"), None);
    assert_eq!(below("C:\\x", "C:"), home("\\x"));
    assert_eq!(below("C:\\x", "C:\\"), home("x"));
    assert_eq!(below("c:/users/U/x/", "C:\\Users\\u"), home("x"));
    assert_eq!(below("D:\\x", "C:\\"), None);
    assert_eq!(below("\\\\h\\s\\x", "\\\\H\\S"), home("x"));
    assert_eq!(below("//h/s/x", "\\\\h\\s"), home("x"));
    assert_eq!(below("//h/s/x", "\\\\H\\s"), None);
    assert_eq!(below("\\\\?\\C:\\x", "C:\\"), None);
    assert_eq!(below("\\\\?\\C:\\a/b", "\\\\?\\C:\\a"), None);
    assert_eq!(below("\\\\?\\C:\\a\\b", "\\\\?\\C:\\a"), home("b"));
    assert_eq!(join_path("C:\\u", "x", true), "C:\\u\\x");
    assert_eq!(join_path("C:\\u", "\\x", true), "C:\\x");
    assert_eq!(join_path("C:\\u", "D:x", true), "D:x");
    assert_eq!(join_path("C:", "x", true), "C:x");
    assert_eq!(join_path("\\\\?\\C:\\u", "..\\v/./w", true), "\\\\?\\C:\\v\\w");
    assert_eq!(join_path("\\\\?\\C:\\u", "/v", true), "\\\\?\\C:\\v");
}

#[test]
fn windows_paths_disregard_case() {
    let h = home("C:\\Users\\U");

    assert_eq!(compact_local_path("c:\\users\\u\\Docs", &h, true), "~\\Docs");
    assert_eq!(compact_local_path("D:\\x", &h, true), "D:\\x");
}

#[test]
fn local_terminals_have_a_first_title() {
    assert_eq!(initial_local_title(&None, &None, false), "Local");
    assert_eq!(initial_local_title(&None, &None, true), "PowerShell");
    assert_eq!(initial_local_title(&home("/home/u/x"), &home("/home/u"), false), "~/x");
}

#[test]
fn absolute_paths_name_their_place() {
    assert!(is_absolute("/a", false));
    assert!(!is_absolute("a", false));
    assert!(is_absolute("C:\\a", true));
    assert!(!is_absolute("C:a", true));
    assert!(is_absolute("\\\\server\\share", true));
    assert!(!is_absolute("\\a", true));
    assert!(!is_absolute("\\\\server", true));
    assert!(is_absolute("\\\\?\\", true));
    assert!(is_absolute("\\\\.\\COM1", true));
}

#[test]
fn reported_directories_are_decoded() {
    assert_eq!(decode_local_path_title(" L3RtcA== ", false), home("/tmp"));
    assert_eq!(decode_local_path_title("dG1w", false), None);
    assert_eq!(decode_local_path_title("***", false), None);
    assert_eq!(path_from_bytes(b"/tmp".to_vec(), false), home("/tmp"));
    assert_eq!(path_from_bytes(vec![0x2f, 0xff], false), None);
}
