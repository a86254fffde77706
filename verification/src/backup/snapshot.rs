//! Taking a snapshot: which directories of the content root are project trees,
//! the order a project's path entries are recorded in, the snapshot's integrity
//! verdict, and the report assembled from the manifest just written.

use vstd::prelude::*;
use crate::backup::listing::{BackupReport, ProjectArchive};
use crate::backup::manifest::{Manifest, PathEntry, ProjectEntry};
use crate::backup::Integrity;
use crate::lookup::{eq_ignore_ascii_case, eq_ignore_ascii_case_spec};
use crate::text::{chars_of, ends_with, ends_with_spec, string_from_range, strings_view};
use crate::text::{lemma_seq_lt_asym, lemma_seq_lt_total, lemma_seq_lt_trans, seq_lt, starts_with, starts_with_spec, str_eq, str_lt, push_str, string_of};

verus! {

broadcast use vstd::seq_lib::group_to_multiset_ensures;

// ---- discovery ----------------------------------------------------------------

/// Whether a directory of the content root is a project tree: not the backups
/// directory, not hidden, and holding an `items/` tree or a `backlog.md`.
pub open spec fn project_dir_spec(name: Seq<char>, has_items: bool, has_backlog: bool) -> bool {
    name != "backups"@ && !starts_with_spec(name, "."@) && (has_items || has_backlog)
}

/// Decide whether a directory of the content root is snapshotted as a project.
pub fn is_project_dir(name: &str, has_items: bool, has_backlog: bool) -> (r: bool)
    ensures
        r == project_dir_spec(name@, has_items, has_backlog),
{
    !str_eq(name, "backups") && !starts_with(name, ".") && (has_items || has_backlog)
}

/// A snapshot is intact only when the live database and its copy both passed
/// the integrity check.
pub fn snapshot_integrity(live_ok: bool, copy_ok: bool) -> (r: Integrity)
    ensures
        r == (if live_ok && copy_ok {
            Integrity::Intact
        } else {
            Integrity::Suspect
        }),
{
    if live_ok && copy_ok {
        Integrity::Intact
    } else {
        Integrity::Suspect
    }
}

/// Whether an integrity pragma's result rows say the database is sound: a
/// single row reading `ok` in any ASCII case.
pub open spec fn pragma_ok_spec(rows: Seq<Seq<char>>) -> bool {
    rows.len() == 1 && eq_ignore_ascii_case_spec(rows[0], "ok"@)
}

/// Read the verdict of an integrity pragma (`quick_check`, `integrity_check`)
/// from its result rows.
pub fn pragma_ok(rows: &Vec<String>) -> (r: bool)
    ensures
        r == pragma_ok_spec(strings_view(rows@)),
{
    rows.len() == 1 && eq_ignore_ascii_case(rows[0].as_str(), "ok")
}

/// The project key of a legacy snapshot's content archive `<key>.tar.gz`.
pub open spec fn archive_key_spec(name: Seq<char>) -> Option<Seq<char>> {
    if ends_with_spec(name, ".tar.gz"@) {
        Some(name.subrange(0, name.len() - 7))
    } else {
        None
    }
}

/// The project key a legacy content archive restores into, if it is one.
pub fn archive_key(name: &str) -> (r: Option<String>)
    ensures
        match r {
            Some(k) => archive_key_spec(name@) == Some(k@),
            None => archive_key_spec(name@) is None,
        },
{
    if !ends_with(name, ".tar.gz") {
        return None;
    }
    proof {
        reveal_strlit(".tar.gz");
    }
    let v = chars_of(name);
    Some(string_from_range(&v, 0, v.len() - 7))
}

// ---- path order ---------------------------------------------------------------

/// The project-relative path of an entry.
pub open spec fn entry_path_spec(e: PathEntry) -> Seq<char> {
    match e {
        PathEntry::File { path, .. } => path@,
        PathEntry::Symlink { path, .. } => path@,
    }
}

/// The project-relative path of an entry.
pub fn entry_path(e: &PathEntry) -> (r: &str)
    ensures
        r@ == entry_path_spec(*e),
{
    match e {
        PathEntry::File { path, .. } => path.as_str(),
        PathEntry::Symlink { path, .. } => path.as_str(),
    }
}

/// Entries in non-decreasing lexical order of their paths.
pub open spec fn paths_ascending(es: Seq<PathEntry>) -> bool {
    forall|i: int, j: int|
        0 <= i < j < es.len() ==> !seq_lt(entry_path_spec(#[trigger] es[j]), entry_path_spec(#[trigger] es[i]))
}

/// Order a project's path entries by path, as the manifest records them.
/// Entries with equal paths keep their relative order.
pub fn sort_entries(paths: Vec<PathEntry>) -> (r: Vec<PathEntry>)
    ensures
        r@.to_multiset() == paths@.to_multiset(),
        paths_ascending(r@),
{
    let mut out: Vec<PathEntry> = Vec::new();
    let mut rest = paths;
    let ghost orig = rest@;
    let n0: usize = rest.len();
    let mut k: usize = 0;
    while rest.len() > 0
        invariant
            k <= orig.len(),
            orig.len() == n0,
            rest.len() + k == orig.len(),
            rest@ == orig.skip(k as int),
            out@.to_multiset() == orig.take(k as int).to_multiset(),
            paths_ascending(out@),
        decreases rest.len(),
    {
        proof {
            assert(orig.skip(k as int)[0] == orig[k as int]);
            assert(orig.skip(k as int).remove(0) =~= orig.skip(k + 1));
            assert(orig.take(k + 1) =~= orig.take(k as int).push(orig[k as int]));
        }
        let e = rest.remove(0);
        // Insert before the first entry whose path is strictly greater.
        let mut p: usize = 0;
        while p < out.len() && !str_lt(entry_path(&e), entry_path(&out[p]))
            invariant
                p <= out.len(),
                forall|q: int| 0 <= q < p ==> !seq_lt(entry_path_spec(e), entry_path_spec(#[trigger] out@[q])),
            decreases out.len() - p,
        {
            p = p + 1;
        }
        let ghost before = out@;
        let ghost ep = entry_path_spec(e);
        proof {
            assert forall|q: int| p <= q < before.len() implies seq_lt(ep, entry_path_spec(#[trigger] before[q])) by {
                let bp = entry_path_spec(before[p as int]);
                let bq = entry_path_spec(before[q]);
                if q > p {
                    assert(!seq_lt(bq, bp));
                    lemma_seq_lt_total(bp, bq);
                    if bp != bq {
                        lemma_seq_lt_trans(ep, bp, bq);
                    }
                }
            }
        }
        out.insert(p, e);
        proof {
            assert forall|i: int, j: int| 0 <= i < j < out@.len() implies !seq_lt(
                entry_path_spec(#[trigger] out@[j]),
                entry_path_spec(#[trigger] out@[i]),
            ) by {
                if j < p {
                    assert(out@[i] == before[i] && out@[j] == before[j]);
                } else if j == p {
                    assert(out@[j] == e);
                    assert(out@[i] == before[i]);
                } else if i > p {
                    assert(out@[i] == before[i - 1] && out@[j] == before[j - 1]);
                } else if i == p {
                    assert(out@[i] == e);
                    assert(out@[j] == before[j - 1]);
                    lemma_seq_lt_asym(ep, entry_path_spec(before[j - 1]));
                } else {
                    assert(out@[i] == before[i] && out@[j] == before[j - 1]);
                }
            }
            assert(out@ == before.insert(p as int, e));
            vstd::seq_lib::to_multiset_insert(before, p as int, e);
        }
        k = k + 1;
    }
    proof {
        assert(orig.take(orig.len() as int) =~= orig);
    }
    out
}

// ---- the report -----------------------------------------------------------------

/// The summed sizes of the file entries among the first `n` of `paths`, `sizes`
/// holding the on-disk size of each entry's object (symlinks own none).
pub open spec fn file_bytes_upto(paths: Seq<PathEntry>, sizes: Seq<u64>, n: int) -> int
    decreases n,
{
    if n <= 0 {
        0
    } else {
        file_bytes_upto(paths, sizes, n - 1) + match paths[n - 1] {
            PathEntry::File { .. } => sizes[n - 1] as int,
            PathEntry::Symlink { .. } => 0,
        }
    }
}

/// The logical size of one project of a snapshot.
pub open spec fn project_bytes(p: ProjectEntry, sizes: Seq<u64>) -> int {
    file_bytes_upto(p.paths@, sizes, p.paths@.len() as int)
}

/// Every project's sizes are aligned with its entries and its total fits.
pub open spec fn sizes_fit(projects: Seq<ProjectEntry>, sizes: Seq<Vec<u64>>) -> bool {
    &&& sizes.len() == projects.len()
    &&& forall|i: int| 0 <= i < projects.len() ==> (#[trigger] sizes[i])@.len() == projects[i].paths@.len()
    &&& forall|i: int| 0 <= i < projects.len() ==> project_bytes(#[trigger] projects[i], sizes[i]@) <= u64::MAX
}

/// The archive line of project `i` in the report of snapshot `id`.
pub open spec fn archive_of(projects: Seq<ProjectEntry>, sizes: Seq<Vec<u64>>, id: Seq<char>, i: int) -> (Seq<char>, Seq<char>, int) {
    (projects[i].key@, id + ".json"@, project_bytes(projects[i], sizes[i]@))
}

/// The plain view of an archive line.
pub open spec fn archive_view(a: ProjectArchive) -> (Seq<char>, Seq<char>, int) {
    (a.key@, a.archive@, a.bytes as int)
}

/// Archive lines in non-decreasing order of their keys.
pub open spec fn keys_ascending(xs: Seq<ProjectArchive>) -> bool {
    forall|i: int, j: int| 0 <= i < j < xs.len() ==> !seq_lt((#[trigger] xs[j]).key@, (#[trigger] xs[i]).key@)
}

fn project_size(paths: &Vec<PathEntry>, sizes: &Vec<u64>) -> (r: u64)
    requires
        sizes@.len() == paths@.len(),
        file_bytes_upto(paths@, sizes@, paths@.len() as int) <= u64::MAX,
    ensures
        r as int == file_bytes_upto(paths@, sizes@, paths@.len() as int),
{
    let mut total: u64 = 0;
    let mut i: usize = 0;
    while i < paths.len()
        invariant
            i <= paths.len(),
            sizes@.len() == paths@.len(),
            file_bytes_upto(paths@, sizes@, paths@.len() as int) <= u64::MAX,
            total as int == file_bytes_upto(paths@, sizes@, i as int),
        decreases paths.len() - i,
    {
        proof {
            lemma_file_bytes_monotone(paths@, sizes@, i + 1, paths@.len() as int);
        }
        match &paths[i] {
            PathEntry::File { .. } => {
                total = total + sizes[i];
            },
            PathEntry::Symlink { .. } => {},
        }
        i = i + 1;
    }
    total
}

proof fn lemma_file_bytes_monotone(paths: Seq<PathEntry>, sizes: Seq<u64>, a: int, b: int)
    requires
        0 <= a <= b <= paths.len(),
        sizes.len() == paths.len(),
    ensures
        file_bytes_upto(paths, sizes, a) <= file_bytes_upto(paths, sizes, b),
    decreases b - a,
{
    if a < b {
        lemma_file_bytes_monotone(paths, sizes, a, b - 1);
    }
}

/// Insert an archive line keeping the keys ascending (after equal keys).
fn insert_by_key(out: &mut Vec<ProjectArchive>, a: ProjectArchive)
    requires
        keys_ascending(old(out)@),
    ensures
        keys_ascending(final(out)@),
        final(out)@.to_multiset() == old(out)@.to_multiset().insert(a),
{
    let mut p: usize = 0;
    while p < out.len() && !str_lt(a.key.as_str(), out[p].key.as_str())
        invariant
            p <= out.len(),
            forall|q: int| 0 <= q < p ==> !seq_lt(a.key@, (#[trigger] out@[q]).key@),
        decreases out.len() - p,
    {
        p = p + 1;
    }
    let ghost before = out@;
    proof {
        assert forall|q: int| p <= q < before.len() implies seq_lt(a.key@, (#[trigger] before[q]).key@) by {
            let bp = before[p as int].key@;
            if q > p {
                assert(!seq_lt(before[q].key@, bp));
                lemma_seq_lt_total(bp, before[q].key@);
                if bp != before[q].key@ {
                    lemma_seq_lt_trans(a.key@, bp, before[q].key@);
                }
            }
        }
    }
    out.insert(p, a);
    proof {
        assert forall|i: int, j: int| 0 <= i < j < out@.len() implies !seq_lt(
            (#[trigger] out@[j]).key@,
            (#[trigger] out@[i]).key@,
        ) by {
            if j < p {
                assert(out@[i] == before[i] && out@[j] == before[j]);
            } else if j == p {
                assert(out@[i] == before[i]);
            } else if i > p {
                assert(out@[i] == before[i - 1] && out@[j] == before[j - 1]);
            } else if i == p {
                assert(out@[j] == before[j - 1]);
                lemma_seq_lt_asym(a.key@, before[j - 1].key@);
            } else {
                assert(out@[i] == before[i] && out@[j] == before[j - 1]);
            }
        }
        assert(out@ == before.insert(p as int, a));
        vstd::seq_lib::to_multiset_insert(before, p as int, a);
    }
}

/// Assemble the report of snapshot `id` from its manifest: one archive line per
/// project (named after the manifest file, sized by the objects of its files),
/// ordered by key, with the database object's size, the verdict (a suspect
/// snapshot is quarantined) and the object counts.
pub fn report_from_manifest(
    id: &str,
    m: &Manifest,
    db_bytes: u64,
    file_sizes: &Vec<Vec<u64>>,
    new_objects: usize,
    total_objects: usize,
) -> (r: BackupReport)
    requires
        sizes_fit(m.projects@, file_sizes@),
    ensures
        r.id@ == id@,
        r.db_bytes == db_bytes,
        r.integrity == m.integrity,
        r.quarantined == (m.integrity == Integrity::Suspect),
        r.new_objects == new_objects,
        r.total_objects == total_objects,
        keys_ascending(r.projects@),
        r.projects@.map_values(|a: ProjectArchive| archive_view(a)).to_multiset() == Seq::new(
            m.projects@.len(),
            |i: int| archive_of(m.projects@, file_sizes@, id@, i),
        ).to_multiset(),
{
    let mut archive = string_of(id);
    push_str(&mut archive, ".json");
    let ghost want = Seq::new(m.projects@.len(), |i: int| archive_of(m.projects@, file_sizes@, id@, i));
    let ghost mut unsorted: Seq<ProjectArchive> = Seq::empty();
    let mut projects: Vec<ProjectArchive> = Vec::new();
    let mut i: usize = 0;
    while i < m.projects.len()
        invariant
            i <= m.projects.len(),
            sizes_fit(m.projects@, file_sizes@),
            archive@ == id@ + ".json"@,
            want == Seq::new(m.projects@.len(), |i: int| archive_of(m.projects@, file_sizes@, id@, i)),
            keys_ascending(projects@),
            projects@.to_multiset() == unsorted.to_multiset(),
            unsorted.map_values(|a: ProjectArchive| archive_view(a)) == want.take(i as int),
        decreases m.projects.len() - i,
    {
        let p = &m.projects[i];
        let bytes = project_size(&p.paths, &file_sizes[i]);
        let line = ProjectArchive { key: p.key.clone(), archive: archive.clone(), bytes };
        assert(archive_view(line) == want[i as int]);
        insert_by_key(&mut projects, line);
        proof {
            assert(unsorted.push(line).to_multiset() =~= unsorted.to_multiset().insert(line));
            assert(unsorted.push(line).map_values(|a: ProjectArchive| archive_view(a)) =~= unsorted.map_values(
                |a: ProjectArchive| archive_view(a),
            ).push(archive_view(line)));
            assert(want.take(i + 1) =~= want.take(i as int).push(want[i as int]));
            unsorted = unsorted.push(line);
        }
        i = i + 1;
    }
    proof {
        assert(want.take(m.projects.len() as int) =~= want);
        crate::xref_report::lemma_map_multiset(projects@, unsorted, |a: ProjectArchive| archive_view(a));
    }
    BackupReport {
        id: string_of(id),
        db_bytes,
        projects,
        integrity: m.integrity,
        quarantined: m.integrity == Integrity::Suspect,
        new_objects,
        total_objects,
    }
}

} // verus!
