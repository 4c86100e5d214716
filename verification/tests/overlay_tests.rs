use fuse_access_guard::config::Permissions;
use fuse_access_guard::config::Settings;
use fuse_access_guard::overlay::attr_from_stat;
use fuse_access_guard::overlay::flags_to_operation;
use fuse_access_guard::overlay::proc_exe_path;
use fuse_access_guard::overlay::rel_for_syscall;
use fuse_access_guard::overlay::AccessDecision;
use fuse_access_guard::overlay::DirEntryOut;
use fuse_access_guard::overlay::FileKind;
use fuse_access_guard::overlay::OpenDecision;
use fuse_access_guard::overlay::PassthroughFs;
use fuse_access_guard::overlay::RawDirEntry;
use fuse_access_guard::overlay::StatData;
use fuse_access_guard::overlay::ACCESS_MODE_READ_ONLY;
use fuse_access_guard::overlay::ACCESS_MODE_READ_WRITE;
use fuse_access_guard::overlay::ACCESS_MODE_WRITE_ONLY;
use fuse_access_guard::overlay::ERRNO_BADF;
use fuse_access_guard::overlay::ERRNO_NOENT;
use fuse_access_guard::rules::AccessRules;
use fuse_access_guard::rules::Operation;

fn rules_for(deny: Vec<&str>, cwd: &str, excluded: Vec<&str>) -> AccessRules {
    let settings = Settings {
        permissions: Permissions { deny: deny.into_iter().map(String::from).collect() },
    };
    AccessRules::new(&settings, cwd, excluded.into_iter().map(String::from).collect()).unwrap()
}

fn overlay_with(deny: Vec<&str>, excluded: Vec<&str>) -> PassthroughFs {
    PassthroughFs::new("/work".to_string(), rules_for(deny, "/work", excluded))
}

fn stat_with_mode(mode: u32) -> StatData {
    StatData {
        mode,
        size: 4096,
        blocks: 8,
        atime_secs: 10,
        mtime_secs: 20,
        ctime_secs: 30,
        nlink: 2,
        uid: 1000,
        gid: 1000,
        rdev: 0,
        blksize: 4096,
    }
}

#[test]
fn test_root_inode_is_source_dir() {
    let fs = overlay_with(vec![], vec![]);
    assert_eq!(fs.node_rel(1).unwrap(), "");
    assert_eq!(fs.virtual_path(1).unwrap(), "/work");
    assert_eq!(fs.node_rel(2), Err(ERRNO_NOENT));
    assert_eq!(fs.node_rel(0), Err(ERRNO_NOENT));
}

#[test]
fn test_inode_allocation_reuses_known_paths() {
    let mut fs = overlay_with(vec![], vec![]);
    let a = fs.get_or_create_inode("a.txt");
    let b = fs.get_or_create_inode("b.txt");
    let a_again = fs.get_or_create_inode("a.txt");
    assert_eq!(a, 2);
    assert_eq!(b, 3);
    assert_eq!(a_again, a);
    assert_eq!(fs.node_rel(a).unwrap(), "a.txt");
    assert_eq!(fs.virtual_path(b).unwrap(), "/work/b.txt");
}

#[test]
fn test_lookup_path_joins_below_parent() {
    let mut fs = overlay_with(vec![], vec![]);
    assert_eq!(fs.lookup_path(1, "sub").unwrap(), "sub");
    let sub = fs.get_or_create_inode("sub");
    assert_eq!(fs.lookup_path(sub, "inner.txt").unwrap(), "sub/inner.txt");
    assert_eq!(fs.lookup_path(99, "x"), Err(ERRNO_NOENT));
}

#[test]
fn test_open_denied_for_matching_rule() {
    let mut fs = overlay_with(vec!["Read(./secret.txt)"], vec![]);
    let ino = fs.get_or_create_inode("secret.txt");
    match fs.decide_open(ino, 0, None) {
        OpenDecision::Denied { vpath, op } => {
            assert_eq!(vpath, "/work/secret.txt");
            assert_eq!(op, Operation::Read);
        },
        _ => panic!("expected a denial"),
    }
}

#[test]
fn test_open_allowed_for_other_paths_and_ops() {
    let mut fs = overlay_with(vec!["Read(./secret.txt)"], vec![]);
    let other = fs.get_or_create_inode("public.txt");
    match fs.decide_open(other, 0, None) {
        OpenDecision::Allow { rel, open_flags, vpath } => {
            assert_eq!(rel, "public.txt");
            assert_eq!(open_flags, 0);
            assert_eq!(vpath, "/work/public.txt");
        },
        _ => panic!("expected forwarding"),
    }
    // A write to the read-denied file is not blocked by the read rule.
    let secret = fs.get_or_create_inode("secret.txt");
    assert!(matches!(fs.decide_open(secret, 1, None), OpenDecision::Allow { .. }));
}

#[test]
fn test_open_flags_masked() {
    let mut fs = overlay_with(vec![], vec![]);
    let ino = fs.get_or_create_inode("f");
    // Flags carry creation and truncation bits that must not be forwarded.
    let flags = 0o2 | 0o100 | 0o1000 | 0o2000 | 0o4000;
    match fs.decide_open(ino, flags, None) {
        OpenDecision::Allow { open_flags, .. } => {
            assert_eq!(open_flags, 0o2 | 0o2000 | 0o4000);
        },
        _ => panic!("expected forwarding"),
    }
}

#[test]
fn test_open_excluded_caller_bypasses_rules() {
    let mut fs = overlay_with(vec!["Read(./a.txt)"], vec!["/bin/cat"]);
    let ino = fs.get_or_create_inode("a.txt");
    let cat = "/bin/cat".to_string();
    assert!(matches!(fs.decide_open(ino, 0, Some(&cat)), OpenDecision::Allow { .. }));
    let ls = "/bin/ls".to_string();
    assert!(matches!(fs.decide_open(ino, 0, Some(&ls)), OpenDecision::Denied { .. }));
    // An unresolved caller is not excluded.
    assert!(matches!(fs.decide_open(ino, 0, None), OpenDecision::Denied { .. }));
}

#[test]
fn test_open_root_rewrites_empty_path() {
    let fs = overlay_with(vec![], vec![]);
    match fs.decide_open(1, 0, None) {
        OpenDecision::Allow { rel, .. } => assert_eq!(rel, "."),
        _ => panic!("expected forwarding"),
    }
    assert!(matches!(fs.decide_open(77, 0, None), OpenDecision::NoEntry));
}

#[test]
fn test_access_mask_bits() {
    let mut fs = overlay_with(vec!["Write(./w.txt)"], vec![]);
    let ino = fs.get_or_create_inode("w.txt");
    // R_OK = 4 is not denied by a write rule; W_OK = 2 is.
    assert!(matches!(fs.decide_access(ino, 4, None), AccessDecision::Forward { .. }));
    assert!(matches!(fs.decide_access(ino, 2, None), AccessDecision::Denied));
    assert!(matches!(fs.decide_access(ino, 4 | 2, None), AccessDecision::Denied));
    assert!(matches!(fs.decide_access(99, 4, None), AccessDecision::NoEntry));
}

#[test]
fn test_access_excluded_caller() {
    let mut fs = overlay_with(vec!["Read(./a)"], vec!["/bin/cat"]);
    let ino = fs.get_or_create_inode("a");
    let cat = "/bin/cat".to_string();
    assert!(matches!(fs.decide_access(ino, 4, Some(&cat)), AccessDecision::Forward { .. }));
}

#[test]
fn test_handle_lifecycle() {
    let mut fs = overlay_with(vec![], vec![]);
    let fh1 = fs.register_handle(11, "/work/a".to_string());
    let fh2 = fs.register_handle(12, "/work/b".to_string());
    assert_ne!(fh1, fh2);
    assert_eq!(fs.handle_fd(fh1), Ok(11));
    assert_eq!(fs.handle_fd(fh2), Ok(12));
    assert_eq!(fs.handle_fd(999), Err(ERRNO_BADF));
    assert_eq!(fs.release_handle(fh1), Some(11));
    assert_eq!(fs.handle_fd(fh1), Err(ERRNO_BADF));
    assert_eq!(fs.release_handle(fh1), None);
    let fh3 = fs.register_handle(13, "/work/c".to_string());
    assert_ne!(fh3, fh2);
    let fds = fs.drain_handles();
    assert_eq!(fds, vec![12, 13]);
    assert_eq!(fs.handle_fd(fh2), Err(ERRNO_BADF));
}

#[test]
fn test_attr_mapping() {
    let attr = attr_from_stat(5, &stat_with_mode(0o040755));
    assert_eq!(attr.ino, 5);
    assert_eq!(attr.kind, FileKind::Directory);
    assert_eq!(attr.perm, 0o755);
    assert_eq!(attr.crtime_secs, 0);
    assert_eq!(attr.size, 4096);
    let link = attr_from_stat(6, &stat_with_mode(0o120777));
    assert_eq!(link.kind, FileKind::Symlink);
    let file = attr_from_stat(7, &stat_with_mode(0o100644));
    assert_eq!(file.kind, FileKind::Regular);
    assert_eq!(file.perm, 0o644);
}

#[test]
fn test_flags_to_operation() {
    assert_eq!(flags_to_operation(ACCESS_MODE_READ_ONLY), Operation::Read);
    assert_eq!(flags_to_operation(ACCESS_MODE_WRITE_ONLY), Operation::Write);
    assert_eq!(flags_to_operation(ACCESS_MODE_READ_WRITE), Operation::Write);
    assert_eq!(flags_to_operation(0o2000), Operation::Read);
}

#[test]
fn test_rel_for_syscall() {
    assert_eq!(rel_for_syscall(""), ".");
    assert_eq!(rel_for_syscall("a/b"), "a/b");
}

#[test]
fn test_proc_exe_path() {
    assert_eq!(proc_exe_path(4321), "/proc/4321/exe");
}

#[test]
fn test_opendir_check() {
    let fs = overlay_with(vec![], vec![]);
    assert_eq!(fs.opendir_check(0o040755), Ok(()));
    assert_eq!(fs.opendir_check(0o100644), Err(ERRNO_NOENT));
}

fn raw(name: &str, kind: FileKind) -> RawDirEntry {
    RawDirEntry { name: name.to_string(), kind }
}

fn entry_tuple(e: &DirEntryOut) -> (u64, i64, FileKind, String) {
    (e.ino, e.next_offset, e.kind, e.name.clone())
}

#[test]
fn test_readdir_skips_real_dots_and_prepends_synthetic() {
    let mut fs = overlay_with(vec![], vec![]);
    let entries = vec![
        raw(".", FileKind::Directory),
        raw("..", FileKind::Directory),
        raw("a.txt", FileKind::Regular),
        raw("sub", FileKind::Directory),
    ];
    let page = fs.readdir_page(1, &entries, 0).unwrap();
    assert_eq!(page.len(), 4);
    assert_eq!(entry_tuple(&page[0]), (1, 1, FileKind::Directory, ".".to_string()));
    assert_eq!(entry_tuple(&page[1]), (1, 2, FileKind::Directory, "..".to_string()));
    assert_eq!(page[2].name, "a.txt");
    assert_eq!(page[2].next_offset, 3);
    assert_eq!(page[3].name, "sub");
    assert_eq!(page[3].kind, FileKind::Directory);
    // The children were bound to inodes below the directory.
    assert_eq!(fs.node_rel(page[2].ino).unwrap(), "a.txt");
    assert_eq!(fs.node_rel(page[3].ino).unwrap(), "sub");
}

#[test]
fn test_readdir_offset_resumes() {
    let mut fs = overlay_with(vec![], vec![]);
    let entries = vec![raw("a", FileKind::Regular), raw("b", FileKind::Regular)];
    let page = fs.readdir_page(1, &entries, 3).unwrap();
    assert_eq!(page.len(), 1);
    assert_eq!(page[0].name, "b");
    assert_eq!(page[0].next_offset, 4);
    let empty = fs.readdir_page(1, &entries, 4).unwrap();
    assert!(empty.is_empty());
    let beyond = fs.readdir_page(1, &entries, 100).unwrap();
    assert!(beyond.is_empty());
}

#[test]
fn test_readdir_unknown_inode() {
    let mut fs = overlay_with(vec![], vec![]);
    let entries = vec![raw("a", FileKind::Regular)];
    assert_eq!(fs.readdir_page(9, &entries, 0).unwrap_err(), ERRNO_NOENT);
}
