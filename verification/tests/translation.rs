use wslgit::drive::{get_drive_letter, get_prefix_for_drive};
use wslgit::inbound::translate_path_to_win;
use wslgit::outbound::{flag_value, translate_path_to_unix, try_translate_path_to_unix, TranslateError};

#[test]
fn win_to_unix_path_trans() {
    assert_eq!(
        translate_path_to_unix("d:\\test\\file.txt".to_string(), false),
        "/mnt/d/test/file.txt"
    );
    assert_eq!(
        translate_path_to_unix("C:\\Users\\test\\a space.txt".to_string(), false),
        "/mnt/c/Users/test/a space.txt"
    );
}

#[test]
fn unix_to_win_path_trans() {
    assert_eq!(
        &*translate_path_to_win(b"/mnt/d/some path/a file.md"),
        &b"d:/some path/a file.md"[..]
    );
    assert_eq!(
        &*translate_path_to_win(b"origin  /mnt/c/path/ (fetch)"),
        &b"origin  c:/path/ (fetch)"[..]
    );
    let multiline = b"mirror  /mnt/c/other/ (fetch)\nmirror  /mnt/c/other/ (push)\n";
    let multiline_result = b"mirror  c:/other/ (fetch)\nmirror  c:/other/ (push)\n";
    assert_eq!(
        &*translate_path_to_win(&multiline[..]),
        &multiline_result[..]
    );
}

#[test]
fn no_path_translation() {
    assert_eq!(
        &*translate_path_to_win(b"/mnt/other/file.sh"),
        &b"/mnt/other/file.sh"[..]
    );
}

#[test]
fn relative_path_translation() {
    assert_eq!(
        translate_path_to_unix(".\\src\\main.rs".to_string(), true),
        "./src/main.rs"
    );
}

#[test]
fn long_argument_path_translation() {
    assert_eq!(
        translate_path_to_unix("--file=C:\\some\\path.txt".to_owned(), false),
        "--file=/mnt/c/some/path.txt"
    );
}

#[test]
fn forward_slash_absolute_path() {
    assert_eq!(
        translate_path_to_unix("C:/some/path.txt".to_string(), false),
        "/mnt/c/some/path.txt"
    );
}

#[test]
fn verbatim_drive_path() {
    assert_eq!(
        translate_path_to_unix("\\\\?\\D:\\data\\log.txt".to_string(), false),
        "/mnt/d/data/log.txt"
    );
}

#[test]
fn plain_tokens_unchanged() {
    assert_eq!(translate_path_to_unix("status".to_string(), false), "status");
    assert_eq!(
        translate_path_to_unix("--version".to_string(), false),
        "--version"
    );
    assert_eq!(translate_path_to_unix("".to_string(), false), "");
    // An environment-native path is already of the other convention and
    // names nothing on the host: no-op.
    assert_eq!(
        translate_path_to_unix("/mnt/d/test/file.txt".to_string(), false),
        "/mnt/d/test/file.txt"
    );
}

#[test]
fn relative_paths_gated_on_existence() {
    // An existing relative entry is decomposed, a dotless one included.
    assert_eq!(
        translate_path_to_unix("src\\main.rs".to_string(), true),
        "src/main.rs"
    );
    // One that resolves to nothing passes through unchanged, dot-anchored
    // or not.
    assert_eq!(
        translate_path_to_unix("src\\main.rs".to_string(), false),
        "src\\main.rs"
    );
    assert_eq!(
        translate_path_to_unix(".\\nothing.txt".to_string(), false),
        ".\\nothing.txt"
    );
}

#[test]
fn repeated_and_dot_components_collapse() {
    assert_eq!(
        translate_path_to_unix("d:\\\\a\\.\\b\\".to_string(), false),
        "/mnt/d/a/b"
    );
    assert_eq!(
        translate_path_to_unix("..\\up\\two".to_string(), true),
        "../up/two"
    );
}

#[test]
fn unresolvable_drive_is_an_error() {
    assert_eq!(
        try_translate_path_to_unix("\\\\server\\share\\file", false),
        Err(TranslateError::UnresolvableDrive)
    );
    assert_eq!(
        try_translate_path_to_unix("--path=\\\\server\\share", false),
        Err(TranslateError::UnresolvableDrive)
    );
    // The prefix stays unresolvable even for an existing entry.
    assert_eq!(
        try_translate_path_to_unix("\\\\server\\share\\file", true),
        Err(TranslateError::UnresolvableDrive)
    );
    assert_eq!(
        try_translate_path_to_unix("d:\\ok\\file", false),
        Ok("/mnt/d/ok/file".to_string())
    );
}

#[test]
fn flag_value_strips_option_prefix() {
    assert_eq!(flag_value("--file=C:\\some\\path.txt"), "C:\\some\\path.txt");
    assert_eq!(flag_value("plain"), "plain");
    assert_eq!(flag_value("--no-equals"), "--no-equals");
}

#[test]
fn round_trip_of_forward_slash_path() {
    let host = "c:/projects/demo/readme.md".to_string();
    let outbound = translate_path_to_unix(host.clone(), false);
    assert_eq!(outbound, "/mnt/c/projects/demo/readme.md");
    let back = translate_path_to_win(outbound.as_bytes());
    assert_eq!(&*back, host.as_bytes());
}

#[test]
fn inbound_is_idempotent_once_settled() {
    let once = translate_path_to_win(b"origin  /mnt/c/path/ (fetch)");
    let twice = translate_path_to_win(&once);
    assert_eq!(once, twice);
}

#[test]
fn inbound_folds_letter_case_and_keeps_bare_mount() {
    assert_eq!(&*translate_path_to_win(b"/mnt/D/x"), &b"d:/x"[..]);
    assert_eq!(&*translate_path_to_win(b"/mnt/c/"), &b"c:/"[..]);
    // Two letters make no drive segment.
    assert_eq!(&*translate_path_to_win(b"/mnt/cd/x"), &b"/mnt/cd/x"[..]);
}

#[test]
fn drive_letter_and_mount_prefix() {
    assert_eq!(get_drive_letter("C:"), Some("c".to_string()));
    assert_eq!(get_drive_letter("d:"), Some("d".to_string()));
    assert_eq!(get_drive_letter("CD:"), None);
    assert_eq!(get_drive_letter(""), None);
    assert_eq!(get_prefix_for_drive("d"), "/mnt/d");
}
