use fuse_access_guard::config::Permissions;
use fuse_access_guard::config::Settings;
use fuse_access_guard::planner::compute_mount_points;
use fuse_access_guard::planner::parent_dir;
use fuse_access_guard::rules::AccessRules;

fn rules_for(deny: Vec<&str>, cwd: &str) -> AccessRules {
    let settings = Settings {
        permissions: Permissions { deny: deny.into_iter().map(String::from).collect() },
    };
    AccessRules::new(&settings, cwd, vec![]).unwrap()
}

#[test]
fn test_parent_dir_cases() {
    assert_eq!(parent_dir("/a/b"), Some("/a".to_string()));
    assert_eq!(parent_dir("/a"), Some("/".to_string()));
    assert_eq!(parent_dir("a.txt"), Some("".to_string()));
    assert_eq!(parent_dir("/"), None);
    assert_eq!(parent_dir(""), None);
}

#[test]
fn test_mount_points_deduplicated_parents() {
    let rules = rules_for(
        vec!["Read(./a.txt)", "Write(./b.txt)", "Read(./sub/c.txt)"],
        "/work",
    );
    let mounts = compute_mount_points(&rules);
    let sources: Vec<String> = mounts.iter().map(|m| m.source.clone()).collect();
    assert_eq!(sources, vec!["/work".to_string(), "/work/sub".to_string()]);
    for m in &mounts {
        assert_eq!(m.source, m.target);
    }
}

#[test]
fn test_mount_points_empty_without_rules() {
    let rules = rules_for(vec![], "/work");
    assert!(compute_mount_points(&rules).is_empty());
}

#[test]
fn test_mount_point_of_glob_is_parent_of_pattern_string() {
    let rules = rules_for(vec!["Read(./*.env*)"], "/work");
    let mounts = compute_mount_points(&rules);
    assert_eq!(mounts.len(), 1);
    assert_eq!(mounts[0].source, "/work");
}
