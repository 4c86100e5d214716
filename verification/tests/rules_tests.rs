use fuse_access_guard::config::Permissions;
use fuse_access_guard::config::Settings;
use fuse_access_guard::rules::AccessRules;
use fuse_access_guard::rules::Operation;
use fuse_access_guard::rules::RuleParseError;

fn make_settings(deny: Vec<&str>) -> Settings {
    Settings { permissions: Permissions { deny: deny.into_iter().map(String::from).collect() } }
}

#[test]
fn test_exact_read_denied() {
    let cwd = "/home/user/project";
    let settings = make_settings(vec!["Read(./a.txt)"]);
    let rules = AccessRules::new(&settings, cwd, vec![]).unwrap();

    assert!(rules.is_denied("/home/user/project/a.txt", Operation::Read));
    assert!(!rules.is_denied("/home/user/project/b.txt", Operation::Read));
}

#[test]
fn test_write_not_blocked_by_read_rule() {
    let cwd = "/home/user/project";
    let settings = make_settings(vec!["Read(./a.txt)"]);
    let rules = AccessRules::new(&settings, cwd, vec![]).unwrap();

    assert!(!rules.is_denied("/home/user/project/a.txt", Operation::Write));
}

#[test]
fn test_glob_pattern() {
    let cwd = "/home/user/project";
    let settings = make_settings(vec!["Read(./*.env*)"]);
    let rules = AccessRules::new(&settings, cwd, vec![]).unwrap();

    assert!(rules.is_denied("/home/user/project/.env", Operation::Read));
    assert!(rules.is_denied("/home/user/project/.env.local", Operation::Read));
    assert!(!rules.is_denied("/home/user/project/config.json", Operation::Read));
}

#[test]
fn test_write_operation() {
    let cwd = "/home/user/project";
    let settings = make_settings(vec!["Write(./secret.key)"]);
    let rules = AccessRules::new(&settings, cwd, vec![]).unwrap();

    assert!(rules.is_denied("/home/user/project/secret.key", Operation::Write));
    assert!(!rules.is_denied("/home/user/project/secret.key", Operation::Read));
}

#[test]
fn test_execute_operation() {
    let cwd = "/home/user/project";
    let settings = make_settings(vec!["Execute(./dangerous.sh)"]);
    let rules = AccessRules::new(&settings, cwd, vec![]).unwrap();

    assert!(rules.is_denied("/home/user/project/dangerous.sh", Operation::Execute));
}

#[test]
fn test_invalid_format() {
    let cwd = "/tmp";
    let settings = make_settings(vec!["invalid"]);
    assert!(AccessRules::new(&settings, cwd, vec![]).is_err());
}

#[test]
fn test_unknown_operation() {
    let cwd = "/tmp";
    let settings = make_settings(vec!["Delete(./file.txt)"]);
    assert!(AccessRules::new(&settings, cwd, vec![]).is_err());
}

#[test]
fn test_multiple_rules() {
    let cwd = "/home/user/project";
    let settings = make_settings(vec!["Read(./a.txt)", "Read(./.env)", "Write(./config.json)"]);
    let rules = AccessRules::new(&settings, cwd, vec![]).unwrap();

    assert!(rules.is_denied("/home/user/project/a.txt", Operation::Read));
    assert!(rules.is_denied("/home/user/project/.env", Operation::Read));
    assert!(rules.is_denied("/home/user/project/config.json", Operation::Write));
    assert!(!rules.is_denied("/home/user/project/config.json", Operation::Read));
}

#[test]
fn test_absolute_path() {
    let cwd = "/tmp";
    let settings = make_settings(vec!["Read(/etc/passwd)"]);
    let rules = AccessRules::new(&settings, cwd, vec![]).unwrap();

    assert!(rules.is_denied("/etc/passwd", Operation::Read));
}

#[test]
fn test_executable_exclusion() {
    let cwd = "/tmp";
    let settings = Settings { permissions: Permissions { deny: vec![] } };
    let rules = AccessRules::new(
        &settings,
        cwd,
        vec!["/bin/cat".to_string(), "./myscript.sh".to_string()],
    )
    .unwrap();

    assert!(rules.is_executable_excluded("/bin/cat"));
    assert!(rules.is_executable_excluded("/tmp/myscript.sh"));
    assert!(!rules.is_executable_excluded("/bin/ls"));
}

#[test]
fn test_invalid_format_variants() {
    let cwd = "/tmp";
    assert!(matches!(
        AccessRules::new(&make_settings(vec!["Read"]), cwd, vec![]),
        Err(RuleParseError::InvalidFormat(ref s)) if s == "Read"
    ));
    assert!(matches!(
        AccessRules::new(&make_settings(vec!["Read()"]), cwd, vec![]),
        Err(RuleParseError::InvalidFormat(ref s)) if s == "Read()"
    ));
    assert!(matches!(
        AccessRules::new(&make_settings(vec!["Delete(./x)"]), cwd, vec![]),
        Err(RuleParseError::UnknownOperation(ref s)) if s == "Delete"
    ));
}

#[test]
fn test_invalid_glob_rejected() {
    let cwd = "/tmp";
    let r = AccessRules::new(&make_settings(vec!["Read(./a[)"]), cwd, vec![]);
    assert!(matches!(r, Err(RuleParseError::InvalidGlob(_))));
}

#[test]
fn test_dot_slash_resolves_without_artifacts() {
    let cwd = "/work/dir";
    let settings = make_settings(vec!["Read(./sub/secret.txt)"]);
    let rules = AccessRules::new(&settings, cwd, vec![]).unwrap();
    let paths = rules.denied_paths();
    assert_eq!(paths.len(), 1);
    assert_eq!(paths[0], "/work/dir/sub/secret.txt");
}

#[test]
fn test_dot_dot_slash_joined_as_written() {
    let cwd = "/work/dir";
    let settings = make_settings(vec!["Read(../up.txt)"]);
    let rules = AccessRules::new(&settings, cwd, vec![]).unwrap();
    let paths = rules.denied_paths();
    assert_eq!(paths[0], "/work/dir/../up.txt");
}

#[test]
fn test_rule_construction_deterministic() {
    let cwd = "/home/user/project";
    let settings = make_settings(vec!["Read(./a.txt)", "Write(./*.key)"]);
    let a = AccessRules::new(&settings, cwd, vec!["/bin/cat".to_string()]).unwrap();
    let b = AccessRules::new(&settings, cwd, vec!["/bin/cat".to_string()]).unwrap();
    assert_eq!(a.denied_paths(), b.denied_paths());
    assert_eq!(
        a.is_denied("/home/user/project/a.txt", Operation::Read),
        b.is_denied("/home/user/project/a.txt", Operation::Read)
    );
    assert_eq!(a.is_executable_excluded("/bin/cat"), b.is_executable_excluded("/bin/cat"));
}

#[test]
fn test_denied_paths_glob_pattern_string() {
    let cwd = "/home/user/project";
    let settings = make_settings(vec!["Read(./*.env*)", "Write(/etc/hosts)"]);
    let rules = AccessRules::new(&settings, cwd, vec![]).unwrap();
    let paths = rules.denied_paths();
    assert_eq!(paths, vec!["/home/user/project/*.env*".to_string(), "/etc/hosts".to_string()]);
}
