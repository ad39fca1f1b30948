use auditfs::daemon::scheduler::alerts;
use auditfs::daemon::whitelist::{slice_contains, Whitelist};
use auditfs::diff::compare::{compare, ChangeKind, DiffResult, FileChange};
use auditfs::hashing::types::{DirectorySnapshot, FileSnapshot};

fn change(path: &str, kind: ChangeKind) -> FileChange {
    FileChange { path: path.to_string(), kind, old_hash: None, new_hash: None }
}

fn file(path: &str, contents: &[u8], mode: u32, mtime: i64) -> FileSnapshot {
    FileSnapshot::from_contents(path.to_string(), contents, mode, 0, mtime)
}

#[test]
fn whitelist_matches_fragments() {
    let wl = Whitelist::new(vec!["/tmp/".to_string(), ".lock".to_string()]);
    assert!(wl.is_whitelisted("/tmp/x"));
    assert!(wl.is_whitelisted("/var/db.lock"));
    assert!(!wl.is_whitelisted("/etc/passwd"));
    assert!(!Whitelist::new(vec![]).is_whitelisted("/tmp/x"));
    assert!(Whitelist::default().patterns.is_empty());
}

#[test]
fn whitelist_from_file_lines() {
    let lines: Vec<String> = "# Ignorer les fichiers temporaires\n/tmp/\n\n/var/log/\n.lock\n#.cache\ntarget/"
        .lines()
        .map(String::from)
        .collect();
    let wl = Whitelist::from_lines(&lines);
    assert_eq!(wl.patterns, vec!["/tmp/", "/var/log/", ".lock", "target/"]);
    assert!(wl.is_whitelisted("/var/log/syslog"));
    assert!(!wl.is_whitelisted("/home/.cache/x"));
}

#[test]
fn byte_search() {
    assert!(slice_contains(b"abcdef", b"cde"));
    assert!(slice_contains(b"abc", b""));
    assert!(!slice_contains(b"ab", b"abc"));
    assert!(!slice_contains(b"abcdef", b"ce"));
}

#[test]
fn alert_lines_skip_whitelisted() {
    let diff = DiffResult {
        changes: vec![
            change("/etc/a", ChangeKind::Added),
            change("/tmp/b", ChangeKind::Removed),
            change("/etc/c", ChangeKind::Modified),
        ],
        total_old: 2,
        total_new: 2,
    };
    let empty_old = DirectorySnapshot::new("/".to_string(), 0);
    let empty_new = DirectorySnapshot::new("/".to_string(), 0);
    let wl = Whitelist::new(vec!["/tmp/".to_string()]);
    let lines = alerts(&diff, &empty_old, &empty_new, &wl, "2024-01-01 10:00:00");
    assert_eq!(
        lines,
        vec![
            "[2024-01-01 10:00:00] AJOUTÉ    : /etc/a\n".to_string(),
            "[2024-01-01 10:00:00] MODIFIÉ   : /etc/c ([])\n".to_string(),
        ]
    );
    assert!(alerts(&diff, &empty_old, &empty_new, &Whitelist::new(vec!["/".to_string()]), "t").is_empty());
}

#[test]
fn alert_lines_list_attributes_and_dangers() {
    let mut old = DirectorySnapshot::new("/d".to_string(), 1);
    old.files.insert("/d/conf".to_string(), file("/d/conf", b"v1", 0o644, 10));
    old.files.insert("/d/keep".to_string(), file("/d/keep", b"k", 0o644, 10));
    let mut new = DirectorySnapshot::new("/d".to_string(), 2);
    new.files.insert("/d/conf".to_string(), file("/d/conf", b"v2", 0o644, 20));
    new.files.insert("/d/keep".to_string(), file("/d/keep", b"k", 0o666, 10));
    let diff = compare(&old, &new);
    let lines = alerts(&diff, &old, &new, &Whitelist::default(), "T");
    assert_eq!(
        lines,
        vec![
            "[T] MODIFIÉ   : /d/conf ([\"sha256\", \"blake3\", \"modified_at\"])\n".to_string(),
            "[T] DANGER     : /d/keep — permissions world-writable\n".to_string(),
        ]
    );
}

#[test]
fn changed_attributes_in_order() {
    let a = FileSnapshot::new("/f".to_string(), 1, "h".to_string(), "b".to_string(), 0o600, 1, 5);
    let b = FileSnapshot::new("/f".to_string(), 2, "h".to_string(), "c".to_string(), 0o644, 2, 6);
    assert_eq!(a.changed_attributes(&b), vec!["size", "blake3", "permissions", "owner", "modified_at"]);
    assert!(a.changed_attributes(&a.clone()).is_empty());
    assert!(!a.is_world_writable());
    assert!(FileSnapshot::new("/g".to_string(), 0, String::new(), String::new(), 0o777, 0, 0).is_world_writable());
}

#[test]
fn intact_round_logs_nothing_even_with_world_writable_files() {
    let mut old = DirectorySnapshot::new("/d".to_string(), 1);
    old.files.insert("/d/open".to_string(), file("/d/open", b"x", 0o666, 10));
    let new = old.clone();
    let diff = compare(&old, &new);
    assert!(alerts(&diff, &old, &new, &Whitelist::default(), "T").is_empty());
}

#[test]
fn new_world_writable_file_is_a_danger() {
    let old = DirectorySnapshot::new("/d".to_string(), 1);
    let mut new = DirectorySnapshot::new("/d".to_string(), 2);
    new.files.insert("/d/open".to_string(), file("/d/open", b"x", 0o777, 10));
    let diff = compare(&old, &new);
    assert_eq!(
        alerts(&diff, &old, &new, &Whitelist::default(), "T"),
        vec![
            "[T] AJOUTÉ    : /d/open\n".to_string(),
            "[T] DANGER     : /d/open — permissions world-writable\n".to_string(),
        ]
    );
}
