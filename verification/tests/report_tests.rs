use auditfs::diff::compare::{ChangeKind, DiffResult, FileChange};
use auditfs::diff::report::{to_html, to_text};

fn change(path: &str, kind: ChangeKind) -> FileChange {
    FileChange { path: path.to_string(), kind, old_hash: None, new_hash: None }
}

#[test]
fn test_to_text_empty() {
    let diff = DiffResult { changes: vec![], total_old: 0, total_new: 0 };
    assert!(to_text(&diff).contains("Aucun changement"));
}

#[test]
fn test_to_html_contains_table() {
    let diff = DiffResult { changes: vec![], total_old: 0, total_new: 0 };
    let html = to_html(&diff);
    assert!(html.contains("<table>"));
}

#[test]
fn to_text_empty_is_one_sentence() {
    let diff = DiffResult { changes: vec![], total_old: 7, total_new: 7 };
    assert_eq!(to_text(&diff), "Aucun changement détecté.\n");
}

#[test]
fn to_text_exact_report() {
    let diff = DiffResult {
        changes: vec![
            change("/a", ChangeKind::Added),
            change("/b", ChangeKind::Removed),
            change("/c", ChangeKind::Modified),
        ],
        total_old: 120,
        total_new: 9,
    };
    assert_eq!(
        to_text(&diff),
        "=== Rapport AuditFS ===\nFichiers avant : 120\nFichiers après : 9\nChangements    : 3\n\n\
         [AJOUTÉ]    /a\n[SUPPRIMÉ]  /b\n[MODIFIÉ]   /c\n"
    );
}

#[test]
fn to_html_exact_rows_and_summary() {
    let diff = DiffResult {
        changes: vec![change("/x", ChangeKind::Added), change("/y", ChangeKind::Modified)],
        total_old: 10,
        total_new: 11,
    };
    let html = to_html(&diff);
    assert!(html.starts_with("<!DOCTYPE html>\n"));
    assert!(html.contains(
        "<ul><li>Fichiers avant : 10</li><li>Fichiers après : 11</li><li>Fichiers ajoutés : 1</li>\
         <li>Fichiers supprimés : 0</li><li>Fichiers modifiés : 1</li></ul>\n"
    ));
    assert!(html.ends_with(
        "<table><tr><th>Fichier</th><th>Changement</th></tr>\
         <tr style='background:#d4edda'><td>/x</td><td>AJOUTÉ</td></tr>\n\
         <tr style='background:#fff3cd'><td>/y</td><td>MODIFIÉ</td></tr>\n</table>\n</body></html>"
    ));
    assert!(!html.contains("Aucun changement"));
}

#[test]
fn to_html_empty_says_so() {
    let diff = DiffResult { changes: vec![], total_old: 0, total_new: 0 };
    let html = to_html(&diff);
    assert!(html.contains("<p>Aucun changement détecté.</p>\n<table>"));
    assert!(html.ends_with("<th>Changement</th></tr></table>\n</body></html>"));
    assert!(html.contains("width:100%}\ntd{border:1px solid #ddd;padding:8px}</style></head>\n"));
}
