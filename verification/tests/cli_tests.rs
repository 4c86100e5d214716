use fuse_access_guard::cli::parse_args;
use fuse_access_guard::cli::CliError;

fn argv(parts: &[&str]) -> Vec<String> {
    parts.iter().map(|s| s.to_string()).collect()
}

#[test]
fn test_parse_simple_command() {
    let args = parse_args(&argv(&["fuse-access-guard", "--", "ls", "-la"])).unwrap();
    assert_eq!(args.command_name(), "ls");
    assert_eq!(args.command_args(), vec!["-la".to_string()]);
    assert!(!args.quiet);
    assert!(args.log_file.is_none());
}

#[test]
fn test_parse_with_quiet() {
    let args = parse_args(&argv(&["fuse-access-guard", "--quiet", "--", "cat", "file.txt"]))
        .unwrap();
    assert_eq!(args.command_name(), "cat");
    assert_eq!(args.command_args(), vec!["file.txt".to_string()]);
    assert!(args.quiet);
}

#[test]
fn test_parse_with_log_file() {
    let args = parse_args(&argv(&[
        "fuse-access-guard",
        "--log-file",
        "/tmp/access.log",
        "--",
        "bash",
        "-c",
        "echo hello",
    ]))
    .unwrap();
    assert_eq!(args.log_file, Some("/tmp/access.log".to_string()));
    assert_eq!(args.command_name(), "bash");
    assert_eq!(args.command_args(), vec!["-c".to_string(), "echo hello".to_string()]);
}

#[test]
fn test_parse_command_without_separator() {
    let args = parse_args(&argv(&["fuse-access-guard", "ls", "-la"])).unwrap();
    assert_eq!(args.command_name(), "ls");
    assert_eq!(args.command_args(), vec!["-la".to_string()]);
}

#[test]
fn test_parse_exclude_exec() {
    let args = parse_args(&argv(&[
        "fuse-access-guard",
        "--exclude-exec",
        "/bin/cat",
        "--exclude-exec",
        "/usr/bin/git",
        "--",
        "ls",
    ]))
    .unwrap();
    assert_eq!(args.exclude_exec.len(), 2);
    assert_eq!(args.exclude_exec[0], "/bin/cat");
    assert_eq!(args.exclude_exec[1], "/usr/bin/git");
}

#[test]
fn test_parse_missing_command() {
    let r = parse_args(&argv(&["fuse-access-guard", "--quiet"]));
    assert!(matches!(r, Err(CliError::MissingCommand)));
    let r = parse_args(&argv(&["fuse-access-guard", "--"]));
    assert!(matches!(r, Err(CliError::MissingCommand)));
    let r = parse_args(&argv(&["fuse-access-guard"]));
    assert!(matches!(r, Err(CliError::MissingCommand)));
}

#[test]
fn test_parse_missing_value() {
    let r = parse_args(&argv(&["fuse-access-guard", "--log-file"]));
    assert!(matches!(r, Err(CliError::MissingValue(ref s)) if s == "--log-file"));
    let r = parse_args(&argv(&["fuse-access-guard", "--exclude-exec"]));
    assert!(matches!(r, Err(CliError::MissingValue(ref s)) if s == "--exclude-exec"));
}

#[test]
fn test_parse_unknown_option() {
    let r = parse_args(&argv(&["fuse-access-guard", "--verbose", "ls"]));
    assert!(matches!(r, Err(CliError::UnknownOption(ref s)) if s == "--verbose"));
}

#[test]
fn test_command_arguments_kept_verbatim() {
    let args = parse_args(&argv(&["fuse-access-guard", "cat", "--quiet", "a.txt"])).unwrap();
    assert_eq!(args.command_name(), "cat");
    assert_eq!(args.command_args(), vec!["--quiet".to_string(), "a.txt".to_string()]);
    assert!(!args.quiet);
}
