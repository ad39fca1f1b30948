use auditfs::hashing::digest::{blake3_hex, sha256_hex};
use auditfs::hashing::types::{DirectorySnapshot, FileSnapshot};
use auditfs::diff::compare::compare;
use auditfs::text::to_hex_lower;

#[test]
fn sha256_known_values() {
    assert_eq!(
        sha256_hex(b"hello world"),
        "b94d27b9934d3e08a52e52d7da7dabfac484efe37a5380ee9088f7ace2efcde9"
    );
    assert_eq!(
        sha256_hex(b""),
        "e3b0c44298fc1c149afbf4c8996fb92427ae41e4649b934ca495991b7852b855"
    );
    assert_ne!(sha256_hex(b"a"), sha256_hex(b"b"));
}

#[test]
fn blake3_known_value_and_length() {
    assert_eq!(blake3_hex(b""), "af1349b9f5f9a1a6a0404dea36dcc9499bcb25c9adc112b7cc9a93cae41f3262");
    let h = blake3_hex(b"contenu de test AuditFS");
    assert_eq!(h.len(), 64);
    assert!(h.chars().all(|c| c.is_ascii_hexdigit()));
    assert_eq!(h, blake3_hex(b"contenu de test AuditFS"));
}

#[test]
fn hex_rendering() {
    assert_eq!(to_hex_lower(&[0x00, 0x0f, 0xa5, 0xff]), "000fa5ff");
    assert_eq!(to_hex_lower(&[]), "");
}

#[test]
fn file_snapshot_from_contents() {
    let s = FileSnapshot::from_contents("test_temp.txt".to_string(), b"contenu de test AuditFS", 0o644, 1000, 42);
    assert_eq!(s.size, 23);
    assert_eq!(s.sha256.len(), 64);
    assert_eq!(s.blake3.len(), 64);
    assert_eq!(s.path, "test_temp.txt");
    assert_eq!(s.permissions, 0o644);
    assert_eq!(s.owner, 1000);
    assert_eq!(s.modified_at, 42);
}

#[test]
fn directories_compare_by_content_hash() {
    let mut old = DirectorySnapshot::new("/d".to_string(), 1);
    old.files.insert("/d/f".to_string(), FileSnapshot::from_contents("/d/f".to_string(), b"contenu initial", 0, 0, 1));
    old.files.insert("/d/g".to_string(), FileSnapshot::from_contents("/d/g".to_string(), b"g", 0, 0, 1));
    let mut new = DirectorySnapshot::new("/d".to_string(), 2);
    new.files.insert("/d/f".to_string(), FileSnapshot::from_contents("/d/f".to_string(), b"contenu modifie", 0, 0, 2));
    new.files.insert("/d/g".to_string(), FileSnapshot::from_contents("/d/g".to_string(), b"g", 0, 0, 9));
    let diff = compare(&old, &new);
    assert_eq!(diff.count(), 1);
    assert_eq!(diff.modified()[0].path, "/d/f");
    assert_eq!(diff.total_old, 2);
    assert_eq!(diff.total_new, 2);
}

#[test]
fn directory_snapshot_clone_keeps_files() {
    let mut d = DirectorySnapshot::new("/r".to_string(), 3);
    d.files.insert("/r/a".to_string(), FileSnapshot::from_contents("/r/a".to_string(), b"a", 0, 0, 1));
    let c = d.clone();
    assert_eq!(c.root, "/r");
    assert_eq!(c.created_at, 3);
    assert_eq!(c.files.len(), 1);
    assert_eq!(c.files.get("/r/a").map(|f| f.sha256.clone()), Some(sha256_hex(b"a")));
}
