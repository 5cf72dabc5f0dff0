use wslgit::command::{
    build_command, exit_code_for, select_mode, should_translate_output, InvocationMode,
    StdinPolicy,
};
use wslgit::escape::shell_escape;
use wslgit::outbound::TranslateError;

#[test]
fn escaping_spaces_and_hazards() {
    assert_eq!(shell_escape("plain".to_string()), "plain");
    assert_eq!(shell_escape("a space.txt".to_string()), "\"a space.txt\"");
    assert_eq!(shell_escape("a;b".to_string()), "a$';'b");
    assert_eq!(shell_escape("a\nb".to_string()), "a$'\n'b");
    assert_eq!(shell_escape("".to_string()), "");
}

#[test]
fn mode_selection_from_markers() {
    assert_eq!(select_mode(true, true), InvocationMode::Direct);
    assert_eq!(select_mode(true, false), InvocationMode::Interactive);
    assert_eq!(select_mode(false, true), InvocationMode::Interactive);
    assert_eq!(select_mode(false, false), InvocationMode::Interactive);
}

#[test]
fn output_policy_by_subcommand() {
    assert!(should_translate_output("rev-parse"));
    assert!(should_translate_output("remote"));
    assert!(!should_translate_output("show"));
    assert!(!should_translate_output("status"));
    assert!(!should_translate_output(""));
}

#[test]
fn exit_code_passes_through() {
    assert_eq!(exit_code_for(Some(7)), 7);
    assert_eq!(exit_code_for(Some(0)), 0);
    assert_eq!(exit_code_for(None), 255);
}

#[test]
fn interactive_command_is_shell_quoted() {
    let args = vec!["log".to_string(), "C:\\repo\\a file.txt".to_string()];
    let built = build_command("git", &args, &vec![false, false], None, InvocationMode::Interactive)
        .unwrap();
    assert_eq!(built.rendered, "git log \"/mnt/c/repo/a file.txt\"");
    assert_eq!(
        built.argv,
        vec![
            "bash".to_string(),
            "-ic".to_string(),
            "git log \"/mnt/c/repo/a file.txt\"".to_string()
        ]
    );
    assert_eq!(built.stdin, StdinPolicy::Inherited);
}

#[test]
fn interactive_command_sources_init_file() {
    let args = vec!["status".to_string()];
    let init = "C:\\tools\\init".to_string();
    let built = build_command("git", &args, &vec![false], Some(&init), InvocationMode::Interactive)
        .unwrap();
    assert_eq!(built.rendered, "source /mnt/c/tools/init;git status");
}

#[test]
fn direct_command_is_plain_argv() {
    let args = vec!["log".to_string(), "d:\\r\\x.txt".to_string()];
    let built = build_command("git", &args, &vec![false, false], None, InvocationMode::Direct)
        .unwrap();
    assert_eq!(
        built.argv,
        vec![
            "git".to_string(),
            "log".to_string(),
            "/mnt/d/r/x.txt".to_string()
        ]
    );
    assert_eq!(built.rendered, "git log /mnt/d/r/x.txt");
}

#[test]
fn version_probe_cuts_stdin() {
    let args = vec!["--version".to_string()];
    let built = build_command("git", &args, &vec![false], None, InvocationMode::Interactive)
        .unwrap();
    assert_eq!(built.rendered, "git --version");
    assert_eq!(built.stdin, StdinPolicy::Null);
    let other = build_command(
        "git",
        &vec!["commit".to_string()],
        &vec![false],
        None,
        InvocationMode::Direct,
    )
    .unwrap();
    assert_eq!(other.stdin, StdinPolicy::Inherited);
}

#[test]
fn build_fails_on_unresolvable_drive() {
    let args = vec!["add".to_string(), "\\\\server\\share\\f".to_string()];
    let err = build_command("git", &args, &vec![false, false], None, InvocationMode::Interactive)
        .unwrap_err();
    assert_eq!(err, TranslateError::UnresolvableDrive);
}
