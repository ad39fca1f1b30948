//! The alert lines of one round of the daemon.

use vstd::prelude::*;
use crate::daemon::whitelist::{whitelisted, Whitelist};
use crate::diff::compare::{ChangeKind, DiffResult, FileChange};
use crate::hashing::types::{changed_attributes, world_writable, DirectorySnapshot, FileSnapshot};
use crate::path_map::PathMap;

verus! {

/// The word that tells the kind of change in an alert line.
pub open spec fn alert_tag(kind: ChangeKind) -> Seq<char> {
    match kind {
        ChangeKind::Added => "AJOUTÉ    : "@,
        ChangeKind::Removed => "SUPPRIMÉ  : "@,
        ChangeKind::Modified => "MODIFIÉ   : "@,
    }
}

/// The names, each in double quotes, separated by `", "`.
pub open spec fn quoted_names(names: Seq<Seq<char>>) -> Seq<char>
    decreases names.len(),
{
    if names.len() == 0 {
        Seq::empty()
    } else if names.len() == 1 {
        "\""@ + names[0] + "\""@
    } else {
        quoted_names(names.drop_last()) + ", \""@ + names.last() + "\""@
    }
}

/// The names as a bracketed list of quoted strings, as `{:?}` prints a
/// vector of strings.
pub open spec fn name_list(names: Seq<Seq<char>>) -> Seq<char> {
    "["@ + quoted_names(names) + "]"@
}

/// The attributes that differ on a path between the two snapshots; none when
/// the path is missing from one of them.
pub open spec fn path_attributes(
    old_files: Map<Seq<char>, FileSnapshot>,
    new_files: Map<Seq<char>, FileSnapshot>,
    p: Seq<char>,
) -> Seq<Seq<char>> {
    if old_files.contains_key(p) && new_files.contains_key(p) {
        changed_attributes(old_files[p], new_files[p])
    } else {
        Seq::empty()
    }
}

/// The alert line of a change, stamped with `timestamp`; a modified file's
/// line ends with the list of the attributes that differ.
pub open spec fn alert_line(
    c: FileChange,
    old_files: Map<Seq<char>, FileSnapshot>,
    new_files: Map<Seq<char>, FileSnapshot>,
    timestamp: Seq<char>,
) -> Seq<char> {
    if c.kind == ChangeKind::Modified {
        "["@ + timestamp + "] "@ + alert_tag(c.kind) + c.path@ + " ("@
            + name_list(path_attributes(old_files, new_files, c.path@)) + ")\n"@
    } else {
        "["@ + timestamp + "] "@ + alert_tag(c.kind) + c.path@ + "\n"@
    }
}

/// The alert lines of the changes whose paths are not whitelisted, in order.
pub open spec fn alert_lines(
    cs: Seq<FileChange>,
    old_files: Map<Seq<char>, FileSnapshot>,
    new_files: Map<Seq<char>, FileSnapshot>,
    patterns: Seq<String>,
    timestamp: Seq<char>,
) -> Seq<Seq<char>>
    decreases cs.len(),
{
    if cs.len() == 0 {
        Seq::empty()
    } else if whitelisted(patterns, cs.last().path@) {
        alert_lines(cs.drop_last(), old_files, new_files, patterns, timestamp)
    } else {
        alert_lines(cs.drop_last(), old_files, new_files, patterns, timestamp).push(
            alert_line(cs.last(), old_files, new_files, timestamp),
        )
    }
}

/// The alert line of a file that anyone may write.
pub open spec fn danger_line(path: Seq<char>, timestamp: Seq<char>) -> Seq<char> {
    "["@ + timestamp + "] DANGER     : "@ + path + " — permissions world-writable\n"@
}

/// The file at `path` has become writable by anyone: it is so in the new
/// snapshot, and it was not in the old one (or was not there at all).
pub open spec fn became_world_writable(old_files: Map<Seq<char>, FileSnapshot>, path: Seq<char>, file: FileSnapshot) -> bool {
    world_writable(file.permissions) && !(old_files.contains_key(path) && world_writable(old_files[path].permissions))
}

/// The alert lines of the first `n` files of the new snapshot that have
/// become writable by anyone and whose paths are not whitelisted, in the
/// snapshot's order.
pub open spec fn danger_lines(
    old_files: Map<Seq<char>, FileSnapshot>,
    files: PathMap<FileSnapshot>,
    n: int,
    patterns: Seq<String>,
    timestamp: Seq<char>,
) -> Seq<Seq<char>>
    decreases n,
{
    if n <= 0 {
        Seq::empty()
    } else if became_world_writable(old_files, files.key_at(n - 1), files.value_at(n - 1))
        && !whitelisted(patterns, files.key_at(n - 1)) {
        danger_lines(old_files, files, n - 1, patterns, timestamp).push(danger_line(files.key_at(n - 1), timestamp))
    } else {
        danger_lines(old_files, files, n - 1, patterns, timestamp)
    }
}

/// The first letter of the tag of each kind: `A`, `S` or `M`.
pub open spec fn kind_letter(kind: ChangeKind) -> char {
    match kind {
        ChangeKind::Added => 'A',
        ChangeKind::Removed => 'S',
        ChangeKind::Modified => 'M',
    }
}

/// The kind of a change can be read back from its alert line: the line
/// starts with `[`, the timestamp and `] `, then the twelve characters
/// `AJOUTÉ    : ` for an added file, `SUPPRIMÉ  : ` for a removed one, or
/// `MODIFIÉ   : ` for a modified one, whose first letters differ; so two
/// changes of different kinds never share their lines.
pub proof fn lemma_alert_line_tells_kind(
    c: FileChange,
    old_files: Map<Seq<char>, FileSnapshot>,
    new_files: Map<Seq<char>, FileSnapshot>,
    timestamp: Seq<char>,
)
    ensures
        ({
            let line = alert_line(c, old_files, new_files, timestamp);
            let at: int = timestamp.len() as int + 3;
            &&& line.len() >= at + 12
            &&& line.subrange(0, 1) == "["@
            &&& line.subrange(1, timestamp.len() as int + 1) == timestamp
            &&& line.subrange(timestamp.len() as int + 1, at) == "] "@
            &&& line[at] == kind_letter(c.kind)
            &&& c.kind == ChangeKind::Added ==> line.subrange(at, at + 12) == "AJOUTÉ    : "@
            &&& c.kind == ChangeKind::Removed ==> line.subrange(at, at + 12) == "SUPPRIMÉ  : "@
            &&& c.kind == ChangeKind::Modified ==> line.subrange(at, at + 12) == "MODIFIÉ   : "@
        }),
        forall|k1: ChangeKind, k2: ChangeKind| k1 != k2 ==> kind_letter(k1) != kind_letter(k2),
{
    reveal_strlit("AJOUTÉ    : ");
    reveal_strlit("SUPPRIMÉ  : ");
    reveal_strlit("MODIFIÉ   : ");
    reveal_strlit("[");
    reveal_strlit("] ");
    let line = alert_line(c, old_files, new_files, timestamp);
    let tag = alert_tag(c.kind);
    let head = "["@ + timestamp + "] "@ + tag;
    let rest = if c.kind == ChangeKind::Modified {
        c.path@ + " ("@ + name_list(path_attributes(old_files, new_files, c.path@)) + ")\n"@
    } else {
        c.path@ + "\n"@
    };
    assert(line =~= head + rest);
    let at: int = timestamp.len() as int + 3;
    assert(tag.len() == 12);
    assert(line.subrange(0, 1) =~= "["@);
    assert(line.subrange(1, timestamp.len() as int + 1) =~= timestamp);
    assert(line.subrange(timestamp.len() as int + 1, at) =~= "] "@);
    assert(line.subrange(at, at + 12) =~= tag);
    assert(line[at] == tag[0]);
}

fn tag_str(kind: ChangeKind) -> (s: &'static str)
    ensures
        s@ == alert_tag(kind),
{
    match kind {
        ChangeKind::Added => "AJOUTÉ    : ",
        ChangeKind::Removed => "SUPPRIMÉ  : ",
        ChangeKind::Modified => "MODIFIÉ   : ",
    }
}

/// Appends the names as a bracketed list of quoted strings.
fn push_name_list(out: &mut String, names: &Vec<String>)
    ensures
        final(out)@ == old(out)@ + name_list(names@.map_values(|s: String| s@)),
{
    let ghost views = names@.map_values(|s: String| s@);
    let ghost start = out@;
    out.append("[");
    let mut i: usize = 0;
    while i < names.len()
        invariant
            i <= names@.len(),
            views == names@.map_values(|s: String| s@),
            out@ == start + "["@ + quoted_names(views.take(i as int)),
        decreases names@.len() - i,
    {
        if i > 0 {
            out.append(", \"");
        } else {
            out.append("\"");
        }
        out.append(names[i].as_str());
        out.append("\"");
        proof {
            let t = views.take((i + 1) as int);
            assert(t.drop_last() =~= views.take(i as int));
            assert(t.last() == names@[i as int]@);
            if i == 0 {
                assert(t.len() == 1);
                assert(t[0] == names@[0]@);
            }
        }
        i = i + 1;
    }
    assert(views.take(names@.len() as int) =~= views);
    out.append("]");
}

/// The lines to log for a comparison of `old` with `new`: one per change
/// whose path is not whitelisted, in order, a modified file's line listing
/// the attributes that differ; then one per file of `new` that has become
/// writable by anyone (it was not so, or not present, in `old`) and whose
/// path is not whitelisted, in the snapshot's order. Each line is stamped
/// with `timestamp`. A round where nothing changed logs nothing.
pub fn alerts(
    diff: &DiffResult,
    old: &DirectorySnapshot,
    new: &DirectorySnapshot,
    whitelist: &Whitelist,
    timestamp: &str,
) -> (r: Vec<String>)
    ensures
        r@.len() == alert_lines(diff.changes@, old.files@, new.files@, whitelist.patterns@, timestamp@).len()
            + danger_lines(old.files@, new.files, new.files.spec_len() as int, whitelist.patterns@, timestamp@).len(),
        diff.changes@.len() == 0 && old.files@ == new.files@ ==> r@.len() == 0,
        forall|i: int| 0 <= i < r@.len() ==> #[trigger] r@[i]@ == (alert_lines(diff.changes@, old.files@, new.files@, whitelist.patterns@, timestamp@)
            + danger_lines(old.files@, new.files, new.files.spec_len() as int, whitelist.patterns@, timestamp@))[i],
{
    let mut r: Vec<String> = Vec::new();
    let mut i: usize = 0;
    while i < diff.changes.len()
        invariant
            i <= diff.changes@.len(),
            r@.len() == alert_lines(diff.changes@.take(i as int), old.files@, new.files@, whitelist.patterns@, timestamp@).len(),
            forall|k: int| 0 <= k < r@.len() ==> #[trigger] r@[k]@ == alert_lines(diff.changes@.take(i as int), old.files@, new.files@, whitelist.patterns@, timestamp@)[k],
        decreases diff.changes@.len() - i,
    {
        let c = &diff.changes[i];
        assert(diff.changes@.take((i + 1) as int).drop_last() =~= diff.changes@.take(i as int));
        if !whitelist.is_whitelisted(c.path.as_str()) {
            let mut line = String::new();
            line.append("[");
            line.append(timestamp);
            line.append("] ");
            line.append(tag_str(c.kind));
            line.append(c.path.as_str());
            match c.kind {
                ChangeKind::Modified => {
                    let names: Vec<String> = match (old.files.get(c.path.as_str()), new.files.get(c.path.as_str())) {
                        (Some(a), Some(b)) => a.changed_attributes(b),
                        _ => Vec::new(),
                    };
                    let ghost views = names@.map_values(|s: String| s@);
                    assert(views =~= path_attributes(old.files@, new.files@, c.path@));
                    line.append(" (");
                    push_name_list(&mut line, &names);
                    line.append(")\n");
                },
                _ => {
                    line.append("\n");
                },
            }
            assert(line@ =~= alert_line(*c, old.files@, new.files@, timestamp@));
            r.push(line);
        }
        i = i + 1;
    }
    assert(diff.changes@.take(diff.changes@.len() as int) =~= diff.changes@);
    let ghost head = alert_lines(diff.changes@, old.files@, new.files@, whitelist.patterns@, timestamp@);
    let n: usize = new.files.len();
    let mut j: usize = 0;
    while j < n
        invariant
            j <= n,
            n == new.files.spec_len(),
            head == alert_lines(diff.changes@, old.files@, new.files@, whitelist.patterns@, timestamp@),
            r@.len() == head.len() + danger_lines(old.files@, new.files, j as int, whitelist.patterns@, timestamp@).len(),
            new.files.entries_agree(),
            old.files@ == new.files@ ==> danger_lines(old.files@, new.files, j as int, whitelist.patterns@, timestamp@).len() == 0,
            forall|k: int| 0 <= k < r@.len() ==> #[trigger] r@[k]@ == (head + danger_lines(old.files@, new.files, j as int, whitelist.patterns@, timestamp@))[k],
        decreases n - j,
    {
        let (path, file) = new.files.entry(j);
        let was_world_writable: bool = match old.files.get(path.as_str()) {
            Some(before) => before.is_world_writable(),
            None => false,
        };
        if file.is_world_writable() && !was_world_writable && !whitelist.is_whitelisted(path.as_str()) {
            let mut line = String::new();
            line.append("[");
            line.append(timestamp);
            line.append("] DANGER     : ");
            line.append(path.as_str());
            line.append(" — permissions world-writable\n");
            assert(line@ =~= danger_line(path@, timestamp@));
            r.push(line);
        }
        proof {
            let d0 = danger_lines(old.files@, new.files, j as int, whitelist.patterns@, timestamp@);
            let d1 = danger_lines(old.files@, new.files, (j + 1) as int, whitelist.patterns@, timestamp@);
            assert(head + d1 =~= if became_world_writable(old.files@, path@, *file) && !whitelisted(whitelist.patterns@, path@) {
                (head + d0).push(danger_line(path@, timestamp@))
            } else {
                head + d0
            });
        }
        j = j + 1;
    }
    r
}

} // verus!
