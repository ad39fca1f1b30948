// The whole pipeline: snapshot A -> compare_snapshots -> DiffResult -> text / JSON / HTML.

use auditfs::diff::compare::{ChangeKind, DiffResult, Snapshot};
use auditfs::diff::{compare_snapshots, to_html, to_text};
use auditfs::path_map::PathMap;
use serde_json::Value;

/// Builds a snapshot from (path, hash) pairs.
fn make_snapshot(pairs: &[(&str, &str)]) -> Snapshot {
    let mut m: Snapshot = PathMap::new();
    for (k, v) in pairs {
        m.insert(k.to_string(), v.to_string());
    }
    m
}

fn opt_value(o: &Option<String>) -> Value {
    match o {
        Some(s) => Value::String(s.clone()),
        None => Value::Null,
    }
}

/// The JSON document of a result, as the application's serializer writes it
/// (same field names and shapes), pretty-printed.
fn to_json(diff: &DiffResult) -> Result<String, serde_json::Error> {
    let mut changes = Vec::new();
    for c in &diff.changes {
        let mut m = serde_json::Map::new();
        m.insert("path".to_string(), Value::String(c.path.clone()));
        let kind = match c.kind {
            ChangeKind::Added => "Added",
            ChangeKind::Removed => "Removed",
            ChangeKind::Modified => "Modified",
        };
        m.insert("kind".to_string(), Value::String(kind.to_string()));
        m.insert("old_hash".to_string(), opt_value(&c.old_hash));
        m.insert("new_hash".to_string(), opt_value(&c.new_hash));
        changes.push(Value::Object(m));
    }
    let mut top = serde_json::Map::new();
    top.insert("changes".to_string(), Value::Array(changes));
    top.insert("total_old".to_string(), Value::from(diff.total_old));
    top.insert("total_new".to_string(), Value::from(diff.total_new));
    serde_json::to_string_pretty(&Value::Object(top))
}

#[test]
fn integration_systeme_intact() {
    let snapshot = make_snapshot(&[
        ("/etc/passwd", "hash_passwd"),
        ("/etc/hosts", "hash_hosts"),
        ("/usr/bin/ls", "hash_ls"),
    ]);

    let result = compare_snapshots(&snapshot, &snapshot);

    assert!(result.is_clean(), "Aucune alerte pour un système intact");
    assert_eq!(result.total_old, 3);
    assert_eq!(result.total_new, 3);

    let text = to_text(&result);
    assert!(text.contains("Aucun changement"));

    let json = to_json(&result).unwrap();
    assert!(json.contains("\"changes\": []"));

    let html = to_html(&result);
    assert!(html.contains("Aucun changement"));
}

#[test]
fn integration_fichier_modifie() {
    let old = make_snapshot(&[("/etc/passwd", "hash_original")]);
    let new = make_snapshot(&[("/etc/passwd", "hash_compromis")]);

    let result = compare_snapshots(&old, &new);

    assert_eq!(result.count(), 1);
    assert_eq!(result.modified().len(), 1);

    let text = to_text(&result);
    assert!(text.contains("[MODIFIÉ]"));
    assert!(text.contains("/etc/passwd"));

    let json = to_json(&result).unwrap();
    assert!(json.contains("Modified"));
    assert!(json.contains("/etc/passwd"));

    let html = to_html(&result);
    assert!(html.contains("MODIFIÉ"));
}

#[test]
fn integration_fichier_ajoute() {
    let old = make_snapshot(&[("/etc/passwd", "h1")]);
    let new = make_snapshot(&[("/etc/passwd", "h1"), ("/tmp/.backdoor", "evil_hash")]);

    let result = compare_snapshots(&old, &new);

    assert_eq!(result.added().len(), 1);
    assert_eq!(result.added()[0].path, "/tmp/.backdoor");

    let text = to_text(&result);
    assert!(text.contains("[AJOUTÉ]"));
    assert!(text.contains(".backdoor"));

    let html = to_html(&result);
    assert!(html.contains("AJOUTÉ"));
    assert!(html.contains(".backdoor"));
}

#[test]
fn integration_fichier_supprime() {
    let old = make_snapshot(&[
        ("/etc/nginx/nginx.conf", "config_hash"),
        ("/etc/nginx/sites-enabled/default", "default_hash"),
    ]);
    let new = make_snapshot(&[("/etc/nginx/nginx.conf", "config_hash")]);

    let result = compare_snapshots(&old, &new);

    assert_eq!(result.removed().len(), 1);
    assert_eq!(result.removed()[0].path, "/etc/nginx/sites-enabled/default");

    let text = to_text(&result);
    assert!(text.contains("[SUPPRIMÉ]"));

    let html = to_html(&result);
    assert!(html.contains("SUPPRIMÉ"));
}

#[test]
fn integration_changements_multiples() {
    let old = make_snapshot(&[
        ("/bin/bash", "bash_hash"),
        ("/etc/crontab", "cron_orig"),
        ("/etc/motd", "motd_hash"),
    ]);
    let new = make_snapshot(&[
        ("/bin/bash", "bash_hash"),
        ("/etc/crontab", "cron_modifie"),
        ("/tmp/exploit.sh", "xploit"),
    ]);

    let result = compare_snapshots(&old, &new);

    assert_eq!(result.added().len(), 1);
    assert_eq!(result.removed().len(), 1);
    assert_eq!(result.modified().len(), 1);
    assert_eq!(result.count(), 3);

    let text = to_text(&result);
    assert!(text.contains("[MODIFIÉ]"));
    assert!(text.contains("[SUPPRIMÉ]"));
    assert!(text.contains("[AJOUTÉ]"));

    let json = to_json(&result).unwrap();
    assert!(json.contains("Modified"));
    assert!(json.contains("Added"));
    assert!(json.contains("Removed"));

    let html = to_html(&result);
    assert!(html.contains("Fichiers modifiés"));
    assert!(html.contains("Fichiers ajoutés"));
    assert!(html.contains("Fichiers supprimés"));
}

#[test]
fn integration_json_roundtrip() {
    let old = make_snapshot(&[("/a", "1"), ("/b", "2")]);
    let new = make_snapshot(&[("/a", "1"), ("/c", "3")]);

    let result = compare_snapshots(&old, &new);
    let json = to_json(&result).expect("Sérialisation JSON");

    let parsed: Value = serde_json::from_str(&json).expect("JSON valide");
    assert!(parsed["changes"].is_array());
    assert_eq!(parsed["total_old"], 2);
    assert_eq!(parsed["total_new"], 2);
}

#[test]
fn integration_text_stats() {
    let old = make_snapshot(&[("/a", "1"), ("/b", "2")]);
    let new = make_snapshot(&[("/a", "1"), ("/c", "3")]);

    let result = compare_snapshots(&old, &new);
    let text = to_text(&result);

    assert!(text.contains("Fichiers avant"));
    assert!(text.contains("Changements"));
}
