//! Text and HTML reports of a comparison.

use vstd::prelude::*;
use crate::diff::compare::{ChangeKind, DiffResult, FileChange, of_kind};
use crate::text::{decimal, push_decimal};

verus! {

/// The tag that opens a change's line in the text report.
pub open spec fn text_tag(kind: ChangeKind) -> Seq<char> {
    match kind {
        ChangeKind::Added => "[AJOUTÉ]    "@,
        ChangeKind::Removed => "[SUPPRIMÉ]  "@,
        ChangeKind::Modified => "[MODIFIÉ]   "@,
    }
}

/// A change's line in the text report.
pub open spec fn text_line(c: FileChange) -> Seq<char> {
    text_tag(c.kind) + c.path@ + "\n"@
}

/// The lines of the changes, in order.
pub open spec fn text_lines(cs: Seq<FileChange>) -> Seq<char>
    decreases cs.len(),
{
    if cs.len() == 0 {
        Seq::empty()
    } else {
        text_lines(cs.drop_last()) + text_line(cs.last())
    }
}

/// The text report: a single sentence when nothing changed; otherwise a
/// title, the two totals and the number of changes, then one line per change.
pub open spec fn text_report(d: DiffResult) -> Seq<char> {
    if d.changes@.len() == 0 {
        "Aucun changement détecté.\n"@
    } else {
        "=== Rapport AuditFS ===\n"@ + "Fichiers avant : "@ + decimal(d.total_old as nat) + "\n"@
            + "Fichiers après : "@ + decimal(d.total_new as nat) + "\n"@ + "Changements    : "@
            + decimal(d.changes@.len()) + "\n\n"@ + text_lines(d.changes@)
    }
}

fn tag_str(kind: ChangeKind) -> (s: &'static str)
    ensures
        s@ == text_tag(kind),
{
    match kind {
        ChangeKind::Added => "[AJOUTÉ]    ",
        ChangeKind::Removed => "[SUPPRIMÉ]  ",
        ChangeKind::Modified => "[MODIFIÉ]   ",
    }
}

/// Renders the comparison as text.
pub fn to_text(diff: &DiffResult) -> (s: String)
    ensures
        s@ == text_report(*diff),
{
    if diff.changes.len() == 0 {
        let mut out = String::new();
        out.append("Aucun changement détecté.\n");
        assert(out@ =~= "Aucun changement détecté.\n"@);
        return out;
    }
    let mut out = String::new();
    out.append("=== Rapport AuditFS ===\n");
    out.append("Fichiers avant : ");
    push_decimal(&mut out, diff.total_old);
    out.append("\n");
    out.append("Fichiers après : ");
    push_decimal(&mut out, diff.total_new);
    out.append("\n");
    out.append("Changements    : ");
    push_decimal(&mut out, diff.changes.len());
    out.append("\n\n");
    let ghost head = out@;
    assert(head =~= "=== Rapport AuditFS ===\n"@ + "Fichiers avant : "@ + decimal(diff.total_old as nat) + "\n"@
            + "Fichiers après : "@ + decimal(diff.total_new as nat) + "\n"@ + "Changements    : "@
            + decimal(diff.changes@.len()) + "\n\n"@);
    let mut i: usize = 0;
    while i < diff.changes.len()
        invariant
            i <= diff.changes@.len(),
            out@ == head + text_lines(diff.changes@.take(i as int)),
        decreases diff.changes@.len() - i,
    {
        let c = &diff.changes[i];
        out.append(tag_str(c.kind));
        out.append(c.path.as_str());
        out.append("\n");
        assert(diff.changes@.take((i + 1) as int).drop_last() =~= diff.changes@.take(i as int));
        assert(out@ =~= head + text_lines(diff.changes@.take((i + 1) as int)));
        i = i + 1;
    }
    assert(diff.changes@.take(diff.changes@.len() as int) =~= diff.changes@);
    out
}

/// The label of a change in the HTML report.
pub open spec fn html_label(kind: ChangeKind) -> Seq<char> {
    match kind {
        ChangeKind::Added => "AJOUTÉ"@,
        ChangeKind::Removed => "SUPPRIMÉ"@,
        ChangeKind::Modified => "MODIFIÉ"@,
    }
}

/// The background colour of a change's row in the HTML report.
pub open spec fn html_color(kind: ChangeKind) -> Seq<char> {
    match kind {
        ChangeKind::Added => "#d4edda"@,
        ChangeKind::Removed => "#f8d7da"@,
        ChangeKind::Modified => "#fff3cd"@,
    }
}

/// A change's row in the HTML table.
pub open spec fn html_row(c: FileChange) -> Seq<char> {
    "<tr style='background:"@ + html_color(c.kind) + "'><td>"@ + c.path@ + "</td><td>"@ + html_label(c.kind)
        + "</td></tr>\n"@
}

/// The rows of the changes, in order.
pub open spec fn html_rows(cs: Seq<FileChange>) -> Seq<char>
    decreases cs.len(),
{
    if cs.len() == 0 {
        Seq::empty()
    } else {
        html_rows(cs.drop_last()) + html_row(cs.last())
    }
}

/// The page before the summary.
pub open spec fn html_head() -> Seq<char> {
    "<!DOCTYPE html>\n<html><head><meta charset=\"utf-8\"><title>Rapport AuditFS</title>\n<style>body{font-family:sans-serif;padding:20px}table{border-collapse:collapse;width:100%}\ntd{border:1px solid #ddd;padding:8px}</style></head>\n<body><h1>Rapport AuditFS</h1>\n"@
}

/// The summary: the two totals and the number of changes of each kind.
pub open spec fn html_summary(d: DiffResult) -> Seq<char> {
    "<ul><li>Fichiers avant : "@ + decimal(d.total_old as nat) + "</li><li>Fichiers après : "@
        + decimal(d.total_new as nat) + "</li><li>Fichiers ajoutés : "@
        + decimal(of_kind(d.changes@, ChangeKind::Added).len()) + "</li><li>Fichiers supprimés : "@
        + decimal(of_kind(d.changes@, ChangeKind::Removed).len()) + "</li><li>Fichiers modifiés : "@
        + decimal(of_kind(d.changes@, ChangeKind::Modified).len()) + "</li></ul>\n"@
}

/// The sentence shown when nothing changed, and nothing otherwise.
pub open spec fn html_notice(d: DiffResult) -> Seq<char> {
    if d.changes@.len() == 0 {
        "<p>Aucun changement détecté.</p>\n"@
    } else {
        Seq::empty()
    }
}

/// The HTML report: the head, the summary, the notice, and a table with one
/// row per change.
pub open spec fn html_report(d: DiffResult) -> Seq<char> {
    html_head() + html_summary(d) + html_notice(d) + "<table><tr><th>Fichier</th><th>Changement</th></tr>"@
        + html_rows(d.changes@) + "</table>\n</body></html>"@
}

/// `needle` stands somewhere in `hay`.
pub open spec fn contains_text(hay: Seq<char>, needle: Seq<char>) -> bool {
    exists|i: int| 0 <= i && i + needle.len() <= hay.len() && #[trigger] hay.subrange(i, i + needle.len()) == needle
}

proof fn lemma_contains_middle(before: Seq<char>, needle: Seq<char>, after: Seq<char>)
    ensures
        contains_text(before + needle + after, needle),
{
    let hay = before + needle + after;
    assert(hay.subrange(before.len() as int, before.len() + needle.len() as int) =~= needle);
}

proof fn lemma_text_lines_append(a: Seq<FileChange>, b: Seq<FileChange>)
    ensures
        text_lines(a + b) == text_lines(a) + text_lines(b),
    decreases b.len(),
{
    if b.len() == 0 {
        assert(a + b =~= a);
        assert(text_lines(a) + text_lines(b) =~= text_lines(a));
    } else {
        lemma_text_lines_append(a, b.drop_last());
        assert((a + b).drop_last() =~= a + b.drop_last());
        assert((a + b).last() == b.last());
        assert(text_lines(a + b) =~= text_lines(a) + text_lines(b));
    }
}

proof fn lemma_html_rows_append(a: Seq<FileChange>, b: Seq<FileChange>)
    ensures
        html_rows(a + b) == html_rows(a) + html_rows(b),
    decreases b.len(),
{
    if b.len() == 0 {
        assert(a + b =~= a);
        assert(html_rows(a) + html_rows(b) =~= html_rows(a));
    } else {
        lemma_html_rows_append(a, b.drop_last());
        assert((a + b).drop_last() =~= a + b.drop_last());
        assert((a + b).last() == b.last());
        assert(html_rows(a + b) =~= html_rows(a) + html_rows(b));
    }
}

proof fn lemma_split_at(cs: Seq<FileChange>, k: int)
    requires
        0 <= k < cs.len(),
    ensures
        cs == cs.take(k) + seq![cs[k]] + cs.skip(k + 1),
{
    assert(cs =~= cs.take(k) + seq![cs[k]] + cs.skip(k + 1));
}

/// The text report of a non-empty result gives the number of changes, and
/// one line per change that starts with the tag of its kind (`[AJOUTÉ]    `,
/// `[SUPPRIMÉ]  ` or `[MODIFIÉ]   `), then its path.
#[verifier::spinoff_prover]
#[verifier::rlimit(60)]
pub proof fn lemma_text_report_lines(d: DiffResult)
    ensures
        d.changes@.len() > 0 ==> contains_text(text_report(d), "Changements    : "@ + decimal(d.changes@.len()) + "\n"@),
        forall|k: int| 0 <= k < d.changes@.len() ==> contains_text(
            text_report(d),
            match #[trigger] d.changes@[k].kind {
                ChangeKind::Added => "[AJOUTÉ]    "@,
                ChangeKind::Removed => "[SUPPRIMÉ]  "@,
                ChangeKind::Modified => "[MODIFIÉ]   "@,
            } + d.changes@[k].path@ + "\n"@,
        ),
{
    let cs = d.changes@;
    if cs.len() > 0 {
        reveal_strlit("\n\n");
        reveal_strlit("\n");
        let pre = "=== Rapport AuditFS ===\n"@ + "Fichiers avant : "@ + decimal(d.total_old as nat) + "\n"@
            + "Fichiers après : "@ + decimal(d.total_new as nat) + "\n"@;
        let needle = "Changements    : "@ + decimal(cs.len()) + "\n"@;
        assert(text_report(d) =~= pre + needle + ("\n"@ + text_lines(cs)));
        lemma_contains_middle(pre, needle, "\n"@ + text_lines(cs));
    }
    assert forall|k: int| 0 <= k < cs.len() implies contains_text(
        text_report(d),
        match #[trigger] cs[k].kind {
            ChangeKind::Added => "[AJOUTÉ]    "@,
            ChangeKind::Removed => "[SUPPRIMÉ]  "@,
            ChangeKind::Modified => "[MODIFIÉ]   "@,
        } + cs[k].path@ + "\n"@,
    ) by {
        lemma_split_at(cs, k);
        lemma_text_lines_append(cs.take(k) + seq![cs[k]], cs.skip(k + 1));
        lemma_text_lines_append(cs.take(k), seq![cs[k]]);
        assert(text_lines(seq![cs[k]]) =~= text_line(cs[k])) by {
            let one = seq![cs[k]];
            assert(one.len() == 1);
            assert(one.drop_last() =~= Seq::<FileChange>::empty());
            assert(text_lines(one.drop_last()) == Seq::<char>::empty());
            assert(one.last() == cs[k]);
        }
        let head = "=== Rapport AuditFS ===\n"@ + "Fichiers avant : "@ + decimal(d.total_old as nat) + "\n"@
            + "Fichiers après : "@ + decimal(d.total_new as nat) + "\n"@ + "Changements    : "@
            + decimal(cs.len()) + "\n\n"@;
        assert(text_report(d) =~= (head + text_lines(cs.take(k))) + text_line(cs[k]) + text_lines(cs.skip(k + 1)));
        lemma_contains_middle(head + text_lines(cs.take(k)), text_line(cs[k]), text_lines(cs.skip(k + 1)));
    }
}

#[verifier::spinoff_prover]
#[verifier::rlimit(60)]
proof fn lemma_html_summary_counts(d: DiffResult)
    ensures
        contains_text(html_report(d), "<li>Fichiers ajoutés : "@ + decimal(of_kind(d.changes@, ChangeKind::Added).len()) + "</li>"@),
        contains_text(html_report(d), "<li>Fichiers supprimés : "@ + decimal(of_kind(d.changes@, ChangeKind::Removed).len()) + "</li>"@),
        contains_text(html_report(d), "<li>Fichiers modifiés : "@ + decimal(of_kind(d.changes@, ChangeKind::Modified).len()) + "</li>"@),
{
    let cs = d.changes@;
    let na = decimal(of_kind(cs, ChangeKind::Added).len());
    let nr = decimal(of_kind(cs, ChangeKind::Removed).len());
    let nm = decimal(of_kind(cs, ChangeKind::Modified).len());
    reveal_strlit("</li><li>Fichiers ajoutés : ");
    reveal_strlit("</li><li>Fichiers supprimés : ");
    reveal_strlit("</li><li>Fichiers modifiés : ");
    reveal_strlit("</li></ul>\n");
    reveal_strlit("</li>");
    reveal_strlit("<li>Fichiers ajoutés : ");
    reveal_strlit("<li>Fichiers supprimés : ");
    reveal_strlit("<li>Fichiers modifiés : ");
    reveal_strlit("</ul>\n");
    let la = "</li><li>Fichiers ajoutés : "@;
    let lr = "</li><li>Fichiers supprimés : "@;
    let lm = "</li><li>Fichiers modifiés : "@;
    let le = "</li></ul>\n"@;
    assert(la =~= "</li>"@ + "<li>Fichiers ajoutés : "@);
    assert(lr =~= "</li>"@ + "<li>Fichiers supprimés : "@);
    assert(lm =~= "</li>"@ + "<li>Fichiers modifiés : "@);
    assert(le =~= "</li>"@ + "</ul>\n"@);
    let p0 = html_head() + "<ul><li>Fichiers avant : "@ + decimal(d.total_old as nat) + "</li><li>Fichiers après : "@
        + decimal(d.total_new as nat) + "</li>"@;
    let tail = html_notice(d) + "<table><tr><th>Fichier</th><th>Changement</th></tr>"@ + html_rows(cs)
        + "</table>\n</body></html>"@;
    let sa = "<li>Fichiers ajoutés : "@ + na + "</li>"@;
    let sr = "<li>Fichiers supprimés : "@ + nr + "</li>"@;
    let sm = "<li>Fichiers modifiés : "@ + nm + "</li>"@;
    let page = html_report(d);
    assert(html_summary(d) =~= "<ul><li>Fichiers avant : "@ + decimal(d.total_old as nat) + "</li><li>Fichiers après : "@
        + decimal(d.total_new as nat) + "</li>"@ + sa + sr + sm + "</ul>\n"@);
    assert(page =~= p0 + sa + sr + sm + "</ul>\n"@ + tail);
    assert(page =~= p0 + sa + (sr + sm + "</ul>\n"@ + tail));
    lemma_contains_middle(p0, sa, sr + sm + "</ul>\n"@ + tail);
    assert(page =~= (p0 + sa) + sr + (sm + "</ul>\n"@ + tail));
    lemma_contains_middle(p0 + sa, sr, sm + "</ul>\n"@ + tail);
    assert(page =~= (p0 + sa + sr) + sm + ("</ul>\n"@ + tail));
    lemma_contains_middle(p0 + sa + sr, sm, "</ul>\n"@ + tail);
}

#[verifier::spinoff_prover]
#[verifier::rlimit(60)]
proof fn lemma_html_row_in_page(d: DiffResult, k: int)
    requires
        0 <= k < d.changes@.len(),
    ensures
        contains_text(
            html_report(d),
            "<td>"@ + d.changes@[k].path@ + "</td><td>"@ + html_label(d.changes@[k].kind) + "</td></tr>\n"@,
        ),
{
    let cs = d.changes@;
    let page = html_report(d);
    lemma_split_at(cs, k);
    lemma_html_rows_append(cs.take(k) + seq![cs[k]], cs.skip(k + 1));
    lemma_html_rows_append(cs.take(k), seq![cs[k]]);
    assert(html_rows(seq![cs[k]]) =~= html_row(cs[k])) by {
        let one = seq![cs[k]];
        assert(one.len() == 1);
        assert(one.drop_last() =~= Seq::<FileChange>::empty());
        assert(html_rows(one.drop_last()) == Seq::<char>::empty());
        assert(one.last() == cs[k]);
    }
    let needle = "<td>"@ + cs[k].path@ + "</td><td>"@ + html_label(cs[k].kind) + "</td></tr>\n"@;
    let before_row = html_head() + html_summary(d) + html_notice(d) + "<table><tr><th>Fichier</th><th>Changement</th></tr>"@
        + html_rows(cs.take(k)) + "<tr style='background:"@ + html_color(cs[k].kind) + "'>"@;
    reveal_strlit("'><td>");
    reveal_strlit("'>");
    reveal_strlit("<td>");
    assert("'><td>"@ =~= "'>"@ + "<td>"@);
    assert(html_row(cs[k]) =~= "<tr style='background:"@ + html_color(cs[k].kind) + "'>"@ + needle);
    assert(page =~= before_row + needle + (html_rows(cs.skip(k + 1)) + "</table>\n</body></html>"@));
    lemma_contains_middle(before_row, needle, html_rows(cs.skip(k + 1)) + "</table>\n</body></html>"@);
}

/// The HTML report's summary gives the numbers of added, removed and
/// modified changes of the result, whatever its two totals, and the page has
/// one row per change with its path and the label of its kind (`AJOUTÉ`,
/// `SUPPRIMÉ` or `MODIFIÉ`).
pub proof fn lemma_html_report_counts_and_rows(d: DiffResult)
    ensures
        contains_text(html_report(d), "<li>Fichiers ajoutés : "@ + decimal(of_kind(d.changes@, ChangeKind::Added).len()) + "</li>"@),
        contains_text(html_report(d), "<li>Fichiers supprimés : "@ + decimal(of_kind(d.changes@, ChangeKind::Removed).len()) + "</li>"@),
        contains_text(html_report(d), "<li>Fichiers modifiés : "@ + decimal(of_kind(d.changes@, ChangeKind::Modified).len()) + "</li>"@),
        forall|k: int| 0 <= k < d.changes@.len() ==> contains_text(
            html_report(d),
            "<td>"@ + d.changes@[k].path@ + "</td><td>"@ + match #[trigger] d.changes@[k].kind {
                ChangeKind::Added => "AJOUTÉ"@,
                ChangeKind::Removed => "SUPPRIMÉ"@,
                ChangeKind::Modified => "MODIFIÉ"@,
            } + "</td></tr>\n"@,
        ),
{
    lemma_html_summary_counts(d);
    assert forall|k: int| 0 <= k < d.changes@.len() implies contains_text(
        html_report(d),
        "<td>"@ + d.changes@[k].path@ + "</td><td>"@ + match #[trigger] d.changes@[k].kind {
            ChangeKind::Added => "AJOUTÉ"@,
            ChangeKind::Removed => "SUPPRIMÉ"@,
            ChangeKind::Modified => "MODIFIÉ"@,
        } + "</td></tr>\n"@,
    ) by {
        lemma_html_row_in_page(d, k);
    }
}

fn label_str(kind: ChangeKind) -> (s: &'static str)
    ensures
        s@ == html_label(kind),
{
    match kind {
        ChangeKind::Added => "AJOUTÉ",
        ChangeKind::Removed => "SUPPRIMÉ",
        ChangeKind::Modified => "MODIFIÉ",
    }
}

fn color_str(kind: ChangeKind) -> (s: &'static str)
    ensures
        s@ == html_color(kind),
{
    match kind {
        ChangeKind::Added => "#d4edda",
        ChangeKind::Removed => "#f8d7da",
        ChangeKind::Modified => "#fff3cd",
    }
}

/// Renders the comparison as an HTML page.
pub fn to_html(diff: &DiffResult) -> (s: String)
    ensures
        s@ == html_report(*diff),
{
    let mut out = String::new();
    out.append("<!DOCTYPE html>\n<html><head><meta charset=\"utf-8\"><title>Rapport AuditFS</title>\n<style>body{font-family:sans-serif;padding:20px}table{border-collapse:collapse;width:100%}\ntd{border:1px solid #ddd;padding:8px}</style></head>\n<body><h1>Rapport AuditFS</h1>\n");
    let ghost head = out@;
    assert(head =~= html_head());
    let n_added: usize = diff.added().len();
    let n_removed: usize = diff.removed().len();
    let n_modified: usize = diff.modified().len();
    out.append("<ul><li>Fichiers avant : ");
    push_decimal(&mut out, diff.total_old);
    out.append("</li><li>Fichiers après : ");
    push_decimal(&mut out, diff.total_new);
    out.append("</li><li>Fichiers ajoutés : ");
    push_decimal(&mut out, n_added);
    out.append("</li><li>Fichiers supprimés : ");
    push_decimal(&mut out, n_removed);
    out.append("</li><li>Fichiers modifiés : ");
    push_decimal(&mut out, n_modified);
    out.append("</li></ul>\n");
    assert(out@ =~= html_head() + html_summary(*diff));
    if diff.changes.len() == 0 {
        out.append("<p>Aucun changement détecté.</p>\n");
    }
    out.append("<table><tr><th>Fichier</th><th>Changement</th></tr>");
    let ghost table = out@;
    assert(table =~= html_head() + html_summary(*diff) + html_notice(*diff)
        + "<table><tr><th>Fichier</th><th>Changement</th></tr>"@);
    let mut i: usize = 0;
    while i < diff.changes.len()
        invariant
            i <= diff.changes@.len(),
            out@ == table + html_rows(diff.changes@.take(i as int)),
        decreases diff.changes@.len() - i,
    {
        let c = &diff.changes[i];
        out.append("<tr style='background:");
        out.append(color_str(c.kind));
        out.append("'><td>");
        out.append(c.path.as_str());
        out.append("</td><td>");
        out.append(label_str(c.kind));
        out.append("</td></tr>\n");
        assert(diff.changes@.take((i + 1) as int).drop_last() =~= diff.changes@.take(i as int));
        assert(out@ =~= table + html_rows(diff.changes@.take((i + 1) as int)));
        i = i + 1;
    }
    assert(diff.changes@.take(diff.changes@.len() as int) =~= diff.changes@);
    out.append("</table>\n</body></html>");
    out
}

} // verus!
