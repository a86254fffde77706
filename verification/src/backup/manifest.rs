//! Snapshot manifests: the per-snapshot index from each logical path to a
//! content-addressed object hash.
//!
//! A manifest is self-validating: `path_count` and `body_checksum` (the hex
//! SHA-256 of the canonical JSON body, every field but the checksum itself, in
//! declaration order) let a reader reject a truncated or corrupt manifest rather
//! than restore from it.

use vstd::prelude::*;
use vstd::utf8::encode_utf8;
use crate::backup::Integrity;
use crate::error::{invalid_with, HavenError};
use crate::json::{json_str, push_json_str};
use crate::text::{strings_view, contains_str, nat_digits, push_str, push_u128, push_usize, str_eq};
use crate::util::{hex_spec, sha256_hex, sha256_spec};
use crate::words::join;

verus! {

/// The manifest schema version this library writes and accepts.
pub const MANIFEST_VERSION: u32 = 1;

/// The database of a snapshot, stored as a content-addressed handle.
#[derive(Debug, Clone)]
pub struct DbHandle {
    /// `"gz-full"`: one gzip object per snapshot.
    pub repr: String,
    /// SHA-256 of the uncompressed consolidated database.
    pub object: String,
}

/// One logical path of a project's content tree. Files name an object by the
/// SHA-256 of their uncompressed content; symlinks are recorded by target and
/// own no object.
#[derive(Debug, Clone)]
pub enum PathEntry {
    File { path: String, hash: String, size: u64 },
    Symlink { path: String, target: String },
}

/// One project's content tree in a snapshot.
#[derive(Debug, Clone)]
pub struct ProjectEntry {
    pub key: String,
    pub paths: Vec<PathEntry>,
}

/// One snapshot, as stored at `manifests/<UTC-ts>[-SUSPECT].json`.
#[derive(Debug, Clone)]
pub struct Manifest {
    pub version: u32,
    /// The snapshot's UTC stamp.
    pub ts: String,
    pub integrity: Integrity,
    pub hash_algo: String,
    pub compression: String,
    pub db: DbHandle,
    pub projects: Vec<ProjectEntry>,
    /// Total path entries across all projects.
    pub path_count: usize,
    /// Hex SHA-256 of the canonical body (every field above).
    pub body_checksum: String,
}

// ---- the canonical body -----------------------------------------------------

/// The JSON form of an integrity verdict.
pub open spec fn integrity_json(i: Integrity) -> Seq<char> {
    match i {
        Integrity::Intact => "\"ok\""@,
        Integrity::Suspect => "\"suspect\""@,
    }
}

/// The JSON object of one path entry, tagged by `kind`.
pub open spec fn path_entry_json(e: PathEntry) -> Seq<char> {
    match e {
        PathEntry::File { path, hash, size } => "{\"kind\":\"file\",\"path\":"@ + json_str(path@)
            + ",\"hash\":"@ + json_str(hash@) + ",\"size\":"@ + nat_digits(size as nat) + "}"@,
        PathEntry::Symlink { path, target } => "{\"kind\":\"symlink\",\"path\":"@ + json_str(
            path@,
        ) + ",\"target\":"@ + json_str(target@) + "}"@,
    }
}

/// The JSON objects of a list of path entries.
pub open spec fn paths_json(ps: Seq<PathEntry>) -> Seq<Seq<char>> {
    ps.map_values(|e: PathEntry| path_entry_json(e))
}

/// The JSON object of one project.
pub open spec fn project_json(p: ProjectEntry) -> Seq<char> {
    "{\"key\":"@ + json_str(p.key@) + ",\"paths\":["@ + join(paths_json(p.paths@), ","@) + "]}"@
}

/// The JSON objects of a list of projects.
pub open spec fn projects_json(ps: Seq<ProjectEntry>) -> Seq<Seq<char>> {
    ps.map_values(|p: ProjectEntry| project_json(p))
}

/// The canonical body: compact JSON of every field but the checksum, in order.
pub open spec fn body_json(m: Manifest) -> Seq<char> {
    "{\"version\":"@ + nat_digits(m.version as nat) + ",\"ts\":"@ + json_str(m.ts@)
        + ",\"integrity\":"@ + integrity_json(m.integrity) + ",\"hash_algo\":"@ + json_str(
        m.hash_algo@,
    ) + ",\"compression\":"@ + json_str(m.compression@) + ",\"db\":{\"repr\":"@ + json_str(
        m.db.repr@,
    ) + ",\"object\":"@ + json_str(m.db.object@) + "},\"projects\":["@ + join(
        projects_json(m.projects@),
        ","@,
    ) + "],\"path_count\":"@ + nat_digits(m.path_count as nat) + "}"@
}

/// The checksum a manifest's body must carry.
pub open spec fn checksum_spec(m: Manifest) -> Seq<char> {
    hex_spec(sha256_spec(encode_utf8(body_json(m))))
}

/// The number of path entries across `ps`.
pub open spec fn paths_total(ps: Seq<ProjectEntry>) -> int
    decreases ps.len(),
{
    if ps.len() == 0 {
        0
    } else {
        paths_total(ps.drop_last()) + ps.last().paths.len()
    }
}

proof fn lemma_join_step(ws: Seq<Seq<char>>, sep: Seq<char>, i: int)
    requires
        0 <= i < ws.len(),
    ensures
        join(ws.take(i + 1), sep) == (if i == 0 {
            ws[0]
        } else {
            join(ws.take(i), sep) + sep + ws[i]
        }),
{
    assert(ws.take(i + 1).drop_last() =~= ws.take(i));
    if i == 0 {
        assert(ws.take(1).len() == 1);
    }
}

fn push_integrity(out: &mut String, i: Integrity)
    ensures
        final(out)@ == old(out)@ + integrity_json(i),
{
    match i {
        Integrity::Intact => push_str(out, "\"ok\""),
        Integrity::Suspect => push_str(out, "\"suspect\""),
    }
}

fn push_path_entry(out: &mut String, e: &PathEntry)
    ensures
        final(out)@ == old(out)@ + path_entry_json(*e),
{
    match e {
        PathEntry::File { path, hash, size } => {
            push_str(out, "{\"kind\":\"file\",\"path\":");
            push_json_str(out, path.as_str());
            push_str(out, ",\"hash\":");
            push_json_str(out, hash.as_str());
            push_str(out, ",\"size\":");
            push_u128(out, *size as u128);
            push_str(out, "}");
        },
        PathEntry::Symlink { path, target } => {
            push_str(out, "{\"kind\":\"symlink\",\"path\":");
            push_json_str(out, path.as_str());
            push_str(out, ",\"target\":");
            push_json_str(out, target.as_str());
            push_str(out, "}");
        },
    }
    proof {
        assert(out@ =~= old(out)@ + path_entry_json(*e));
    }
}

fn push_project(out: &mut String, p: &ProjectEntry)
    ensures
        final(out)@ == old(out)@ + project_json(*p),
{
    push_str(out, "{\"key\":");
    push_json_str(out, p.key.as_str());
    push_str(out, ",\"paths\":[");
    let ghost start = out@;
    let ghost items = paths_json(p.paths@);
    let mut i: usize = 0;
    while i < p.paths.len()
        invariant
            i <= p.paths.len(),
            items == paths_json(p.paths@),
            out@ == start + join(items.take(i as int), ","@),
        decreases p.paths.len() - i,
    {
        proof {
            lemma_join_step(items, ","@, i as int);
        }
        if i > 0 {
            push_str(out, ",");
        }
        push_path_entry(out, &p.paths[i]);
        proof {
            assert(out@ =~= start + join(items.take(i + 1), ","@));
        }
        i = i + 1;
    }
    assert(items.take(p.paths.len() as int) =~= items);
    push_str(out, "]}");
    proof {
        assert(out@ =~= old(out)@ + project_json(*p));
    }
}

/// The canonical body of `m`.
fn body_text(m: &Manifest) -> (s: String)
    ensures
        s@ == body_json(*m),
{
    let mut out = String::new();
    push_str(&mut out, "{\"version\":");
    push_u128(&mut out, m.version as u128);
    push_str(&mut out, ",\"ts\":");
    push_json_str(&mut out, m.ts.as_str());
    push_str(&mut out, ",\"integrity\":");
    push_integrity(&mut out, m.integrity);
    push_str(&mut out, ",\"hash_algo\":");
    push_json_str(&mut out, m.hash_algo.as_str());
    push_str(&mut out, ",\"compression\":");
    push_json_str(&mut out, m.compression.as_str());
    push_str(&mut out, ",\"db\":{\"repr\":");
    push_json_str(&mut out, m.db.repr.as_str());
    push_str(&mut out, ",\"object\":");
    push_json_str(&mut out, m.db.object.as_str());
    push_str(&mut out, "},\"projects\":[");
    let ghost start = out@;
    let ghost items = projects_json(m.projects@);
    let mut i: usize = 0;
    while i < m.projects.len()
        invariant
            i <= m.projects.len(),
            items == projects_json(m.projects@),
            out@ == start + join(items.take(i as int), ","@),
        decreases m.projects.len() - i,
    {
        proof {
            lemma_join_step(items, ","@, i as int);
        }
        if i > 0 {
            push_str(&mut out, ",");
        }
        push_project(&mut out, &m.projects[i]);
        proof {
            assert(out@ =~= start + join(items.take(i + 1), ","@));
        }
        i = i + 1;
    }
    assert(items.take(m.projects.len() as int) =~= items);
    push_str(&mut out, "],\"path_count\":");
    push_usize(&mut out, m.path_count);
    push_str(&mut out, "}");
    proof {
        assert(out@ =~= body_json(*m));
    }
    out
}

/// Hex SHA-256 of the canonical body: what `body_checksum` must hold.
pub fn body_checksum(m: &Manifest) -> (s: String)
    ensures
        s@ == checksum_spec(*m),
{
    let body = body_text(m);
    sha256_hex(body.as_str().as_bytes())
}

proof fn lemma_paths_total_prefix(ps: Seq<ProjectEntry>, i: int)
    requires
        0 <= i <= ps.len(),
    ensures
        0 <= paths_total(ps.take(i)) <= paths_total(ps),
    decreases ps.len(),
{
    if ps.len() > 0 {
        if i == ps.len() {
            assert(ps.take(i) =~= ps);
            lemma_paths_total_prefix(ps.drop_last(), i - 1);
            assert(ps.drop_last().take(i - 1) =~= ps.drop_last().take(ps.len() - 1));
            assert(ps.drop_last().take(ps.len() - 1) =~= ps.drop_last());
        } else {
            lemma_paths_total_prefix(ps.drop_last(), i);
            assert(ps.drop_last().take(i) =~= ps.take(i));
        }
    }
}

/// The number of path entries across `projects`.
fn count_paths(projects: &Vec<ProjectEntry>) -> (n: usize)
    requires
        paths_total(projects@) <= usize::MAX,
    ensures
        n as int == paths_total(projects@),
{
    let mut n: usize = 0;
    let mut i: usize = 0;
    while i < projects.len()
        invariant
            i <= projects.len(),
            paths_total(projects@) <= usize::MAX,
            n as int == paths_total(projects@.take(i as int)),
        decreases projects.len() - i,
    {
        proof {
            assert(projects@.take(i + 1).drop_last() =~= projects@.take(i as int));
            lemma_paths_total_prefix(projects@, i + 1);
        }
        n = n + projects[i].paths.len();
        i = i + 1;
    }
    assert(projects@.take(projects.len() as int) =~= projects@);
    n
}

impl Manifest {
    /// Build a manifest, filling the self-validation fields: `version`,
    /// `path_count`, `body_checksum` and the fixed `sha256`/`gzip` tags.
    pub fn new(ts: String, integrity: Integrity, db: DbHandle, projects: Vec<ProjectEntry>) -> (m:
        Manifest)
        requires
            paths_total(projects@) <= usize::MAX,
        ensures
            m.version == MANIFEST_VERSION,
            m.ts == ts,
            m.integrity == integrity,
            m.hash_algo@ == "sha256"@,
            m.compression@ == "gzip"@,
            m.db == db,
            m.projects == projects,
            m.path_count as int == paths_total(projects@),
            m.body_checksum@ == checksum_spec(m),
    {
        let path_count = count_paths(&projects);
        let mut m = Manifest {
            version: MANIFEST_VERSION,
            ts,
            integrity,
            hash_algo: crate::text::string_of("sha256"),
            compression: crate::text::string_of("gzip"),
            db,
            projects,
            path_count,
            body_checksum: String::new(),
        };
        m.body_checksum = body_checksum(&m);
        m
    }

    /// Re-stamp with a new `ts`, recomputing the body checksum.
    pub fn restamp(&mut self, ts: String)
        ensures
            final(self).ts == ts,
            final(self).version == old(self).version,
            final(self).integrity == old(self).integrity,
            final(self).hash_algo == old(self).hash_algo,
            final(self).compression == old(self).compression,
            final(self).db == old(self).db,
            final(self).projects == old(self).projects,
            final(self).path_count == old(self).path_count,
            final(self).body_checksum@ == checksum_spec(*final(self)),
    {
        self.ts = ts;
        self.body_checksum = body_checksum(self);
    }
}

// ---- validation -------------------------------------------------------------

/// The refusal message for an unknown schema version.
pub open spec fn version_msg(v: int) -> Seq<char> {
    "backup manifest version "@ + nat_digits(v as nat) + " unsupported (this binary writes v1)"@
}

/// The refusal message for a `path_count` that disagrees with the entries.
pub open spec fn count_msg(claimed: int, actual: int) -> Seq<char> {
    "backup manifest path_count "@ + nat_digits(claimed as nat) + " != "@ + nat_digits(
        actual as nat,
    ) + " actual entries; refusing a torn manifest"@
}

/// The refusal message for a checksum that does not recompute.
pub open spec fn checksum_msg() -> Seq<char> {
    "backup manifest body checksum mismatch; refusing a torn/corrupt manifest"@
}

/// Reject a torn, corrupt or unknown manifest: an unknown version, a
/// `path_count` that disagrees with the entries, or a `body_checksum` that does
/// not recompute — checked in that order.
pub fn validate(m: &Manifest) -> (r: Result<(), HavenError>)
    requires
        paths_total(m.projects@) <= usize::MAX,
    ensures
        match r {
            Ok(()) => m.version == MANIFEST_VERSION && m.path_count as int == paths_total(
                m.projects@,
            ) && m.body_checksum@ == checksum_spec(*m),
            Err(e) => if m.version != MANIFEST_VERSION {
                invalid_with(e, version_msg(m.version as int))
            } else if m.path_count as int != paths_total(m.projects@) {
                invalid_with(e, count_msg(m.path_count as int, paths_total(m.projects@)))
            } else {
                m.body_checksum@ != checksum_spec(*m) && invalid_with(e, checksum_msg())
            },
        },
{
    if m.version != MANIFEST_VERSION {
        let mut msg = String::new();
        push_str(&mut msg, "backup manifest version ");
        push_u128(&mut msg, m.version as u128);
        push_str(&mut msg, " unsupported (this binary writes v1)");
        assert(msg@ =~= version_msg(m.version as int));
        return Err(HavenError::Invalid(msg));
    }
    let actual = count_paths(&m.projects);
    if actual != m.path_count {
        let mut msg = String::new();
        push_str(&mut msg, "backup manifest path_count ");
        push_usize(&mut msg, m.path_count);
        push_str(&mut msg, " != ");
        push_usize(&mut msg, actual);
        push_str(&mut msg, " actual entries; refusing a torn manifest");
        assert(msg@ =~= count_msg(m.path_count as int, actual as int));
        return Err(HavenError::Invalid(msg));
    }
    let cs = body_checksum(m);
    if !str_eq(cs.as_str(), m.body_checksum.as_str()) {
        return Err(
            HavenError::Invalid(
                crate::text::string_of(
                    "backup manifest body checksum mismatch; refusing a torn/corrupt manifest",
                ),
            ),
        );
    }
    Ok(())
}

} // verus!

verus! {

/// A manifest this library would accept: the schema it writes, a `path_count`
/// that matches the entries and a checksum that recomputes.
pub open spec fn valid_manifest(m: Manifest) -> bool {
    m.version == MANIFEST_VERSION && m.path_count as int == paths_total(m.projects@)
        && m.body_checksum@ == checksum_spec(m)
}

// ---- referenced objects -----------------------------------------------------

/// The object hashes of the file entries of `ps`, in order.
pub open spec fn file_hashes(ps: Seq<PathEntry>) -> Seq<Seq<char>>
    decreases ps.len(),
{
    if ps.len() == 0 {
        Seq::empty()
    } else {
        file_hashes(ps.drop_last()) + match ps.last() {
            PathEntry::File { hash, .. } => seq![hash@],
            PathEntry::Symlink { .. } => Seq::empty(),
        }
    }
}

/// The object hashes of the file entries of every project, in order.
pub open spec fn project_hashes(ps: Seq<ProjectEntry>) -> Seq<Seq<char>>
    decreases ps.len(),
{
    if ps.len() == 0 {
        Seq::empty()
    } else {
        project_hashes(ps.drop_last()) + file_hashes(ps.last().paths@)
    }
}

/// Every object a restore or a collection must treat as live: the database
/// object and the object of every file entry (symlinks own none).
pub open spec fn object_refs(m: Manifest) -> Set<Seq<char>> {
    (seq![m.db.object@] + project_hashes(m.projects@)).to_set()
}

/// Appends `s` to `out` unless a member already has its characters.
fn push_unique(out: &mut Vec<String>, s: &String)
    requires
        strings_view(old(out)@).no_duplicates(),
    ensures
        strings_view(final(out)@).no_duplicates(),
        strings_view(final(out)@).to_set() == old(out)@.map_values(
            |x: String| x@,
        ).to_set().insert(s@),
{
    let ghost before = strings_view(out@);
    if contains_str(out, s.as_str()) {
        assert(before.to_set().insert(s@) =~= before.to_set());
    } else {
        let c = s.clone();
        out.push(c);
        proof {
            let after = strings_view(out@);
            assert(after =~= before.push(s@));
            before.lemma_push_to_set_commute(s@);
            assert forall|a: int, b: int| 0 <= a < b < after.len() implies after[a] != after[b] by {
                if b == after.len() - 1 {
                    assert(before.contains(before[a]));
                }
            }
        }
    }
}

impl Manifest {
    /// Every object hash a restore or a collection must treat as live: the
    /// database object plus every file entry's hash, each once.
    pub fn referenced_objects(&self) -> (r: Vec<String>)
        ensures
            strings_view(r@).no_duplicates(),
            strings_view(r@).to_set() == object_refs(*self),
    {
        let mut out: Vec<String> = Vec::new();
        assert(strings_view(out@).to_set() =~= Set::empty());
        push_unique(&mut out, &self.db.object);
        proof {
            let one = seq![self.db.object@];
            assert(one[0] == self.db.object@);
            assert(one.to_set() =~= Set::empty().insert(self.db.object@));
        }
        let ghost ps = self.projects@;
        let mut i: usize = 0;
        while i < self.projects.len()
            invariant
                i <= self.projects.len(),
                ps == self.projects@,
                strings_view(out@).no_duplicates(),
                strings_view(out@).to_set() == (seq![self.db.object@]
                    + project_hashes(ps.take(i as int))).to_set(),
            decreases self.projects.len() - i,
        {
            let paths = &self.projects[i].paths;
            let ghost base = seq![self.db.object@] + project_hashes(ps.take(i as int));
            let mut j: usize = 0;
            while j < paths.len()
                invariant
                    j <= paths.len(),
                    strings_view(out@).no_duplicates(),
                    strings_view(out@).to_set() == (base + file_hashes(
                        paths@.take(j as int),
                    )).to_set(),
                decreases paths.len() - j,
            {
                proof {
                    assert(paths@.take(j + 1).drop_last() =~= paths@.take(j as int));
                }
                match &paths[j] {
                    PathEntry::File { hash, .. } => {
                        push_unique(&mut out, hash);
                        proof {
                            let pre = base + file_hashes(paths@.take(j as int));
                            assert(base + file_hashes(paths@.take(j + 1)) =~= pre.push(hash@));
                            pre.lemma_push_to_set_commute(hash@);
                        }
                    },
                    PathEntry::Symlink { .. } => {
                        assert(base + file_hashes(paths@.take(j + 1)) =~= base + file_hashes(
                            paths@.take(j as int),
                        ));
                    },
                }
                j = j + 1;
            }
            proof {
                assert(paths@.take(paths.len() as int) =~= paths@);
                assert(ps.take(i + 1).drop_last() =~= ps.take(i as int));
                assert(seq![self.db.object@] + project_hashes(ps.take(i + 1)) =~= base
                    + file_hashes(paths@));
            }
            i = i + 1;
        }
        assert(ps.take(self.projects.len() as int) =~= ps);
        out
    }
}

// ---- verification ---------------------------------------------------------------

/// Whether every entry of `oks` is `true`.
pub open spec fn all_ok(oks: Seq<bool>) -> bool {
    forall|i: int| 0 <= i < oks.len() ==> #[trigger] oks[i]
}

/// The verdict on a readable manifest once each referenced object has been
/// re-hashed (`oks`, one per object): an already-suspect manifest stays suspect
/// with nothing to rewrite; a failed object makes an intact one suspect and
/// yields the re-marked manifest (same stamp, database and projects, integrity
/// `Suspect`, self-validation recomputed) to write in its place; otherwise it is
/// intact.
pub fn verification_verdict(m: Manifest, oks: &Vec<bool>) -> (r: (Integrity, Option<Manifest>))
    requires
        valid_manifest(m),
    ensures
        m.integrity == Integrity::Suspect ==> r.0 == Integrity::Suspect && r.1 is None,
        m.integrity == Integrity::Intact && all_ok(oks@) ==> r.0 == Integrity::Intact && r.1 is None,
        m.integrity == Integrity::Intact && !all_ok(oks@) ==> r.0 == Integrity::Suspect && (r.1 matches Some(
            s,
        ) && s.ts == m.ts && s.integrity == Integrity::Suspect && s.db == m.db && s.projects == m.projects
            && valid_manifest(s)),
{
    if m.integrity == Integrity::Suspect {
        return (Integrity::Suspect, None);
    }
    let mut i: usize = 0;
    while i < oks.len()
        invariant
            i <= oks.len(),
            valid_manifest(m),
            m.integrity == Integrity::Intact,
            forall|j: int| 0 <= j < i ==> #[trigger] oks@[j],
        decreases oks.len() - i,
    {
        if !oks[i] {
            let s = Manifest::new(m.ts, Integrity::Suspect, m.db, m.projects);
            proof {
                lemma_built_manifest_accepted(s);
            }
            return (Integrity::Suspect, Some(s));
        }
        i = i + 1;
    }
    (Integrity::Intact, None)
}

// ---- laws -------------------------------------------------------------------

/// [`validate`] accepts exactly the manifests this library would write; in
/// particular every manifest [`Manifest::new`] builds is accepted.
pub proof fn lemma_built_manifest_accepted(m: Manifest)
    requires
        m.version == MANIFEST_VERSION,
        m.path_count as int == paths_total(m.projects@),
        m.body_checksum@ == checksum_spec(m),
    ensures
        valid_manifest(m),
{
}

/// Re-stamping a valid manifest (new `ts`, checksum recomputed, everything else
/// kept) leaves it valid.
pub proof fn lemma_restamp_keeps_valid(m: Manifest, restamped: Manifest)
    requires
        valid_manifest(m),
        restamped.version == m.version,
        restamped.projects == m.projects,
        restamped.path_count == m.path_count,
        restamped.body_checksum@ == checksum_spec(restamped),
    ensures
        valid_manifest(restamped),
{
}

/// A manifest whose `path_count` was changed away from the real entry count is
/// never valid, whatever its checksum says.
pub proof fn lemma_tampered_count_rejected(m: Manifest, tampered: Manifest)
    requires
        valid_manifest(m),
        tampered.projects == m.projects,
        tampered.path_count != m.path_count,
    ensures
        !valid_manifest(tampered),
{
}

} // verus!
