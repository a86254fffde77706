//! The backup store's names and listings: which directory entries are
//! snapshots, how a snapshot is listed, newest first, where an object lives, and
//! when the daily backup is due.

use vstd::prelude::*;
use crate::backup::rotation::is_suspect;
use crate::backup::{strip_suspect, suspect_of, Integrity};
use crate::text::{
    chars_of, ends_with, ends_with_spec, int_decimal_padded, push_i64_padded, push_str, seq_lt,
    starts_with, starts_with_spec, str_eq, str_lt, string_from_range, string_of, strings_view,
};
use crate::text::{lemma_seq_lt_asym, lemma_seq_lt_total, lemma_seq_lt_trans};
use crate::time::{ymd_spec, ymd_string};
use crate::error::{invalid_with, HavenError};
use crate::text::{debug_quoted, debug_quoted_spec};

verus! {

broadcast use vstd::seq_lib::group_to_multiset_ensures;

/// Keep the newest snapshot of each of this many most recent days...
pub const KEEP_DAILY: usize = 7;

/// ...and of each of this many most recent ISO weeks.
pub const KEEP_WEEKLY: usize = 4;

/// Where per-snapshot manifests live.
pub const MANIFESTS_DIR: &'static str = "manifests";

/// Where content-addressed objects live.
pub const OBJECTS_DIR: &'static str = "objects";

/// The on-disk format of a listed snapshot.
#[derive(Debug, Clone, Copy, PartialEq, Eq, Structural)]
pub enum BackupFormat {
    /// A `manifests/<ts>.json` over the shared object store.
    Manifest,
    /// A self-contained `<ts>/` directory.
    Legacy,
}

/// A snapshot as listed by `backup list`.
#[derive(Debug, Clone)]
pub struct BackupEntry {
    pub id: String,
    /// The UTC stamp of the id, the `-SUSPECT` suffix stripped.
    pub created_at: String,
    /// Summed on-disk bytes of what the snapshot references.
    pub size_bytes: u64,
    pub integrity: Integrity,
    pub format: BackupFormat,
}

/// One project's content archive inside a snapshot.
#[derive(Debug, Clone)]
pub struct ProjectArchive {
    pub key: String,
    pub archive: String,
    pub bytes: u64,
}

/// The outcome of taking a snapshot.
#[derive(Debug, Clone)]
pub struct BackupReport {
    /// The snapshot id: `<UTC-ts>` or `<UTC-ts>-SUSPECT`.
    pub id: String,
    /// On-disk size of the snapshot's database object.
    pub db_bytes: u64,
    pub projects: Vec<ProjectArchive>,
    pub integrity: Integrity,
    pub quarantined: bool,
    /// Objects newly written by this snapshot.
    pub new_objects: usize,
    /// Objects this snapshot references.
    pub total_objects: usize,
}

/// The outcome of a restore.
#[derive(Debug, Clone)]
pub struct RestoreReport {
    pub restored: String,
    /// The safety snapshot of the pre-restore state (empty only if none could be
    /// captured).
    pub safety_snapshot: String,
    pub files_restored: usize,
}

// ---- names ------------------------------------------------------------------

/// Names under the backups root that are store internals, not snapshots.
pub open spec fn reserved_name(name: Seq<char>) -> bool {
    name == "objects"@ || name == "manifests"@ || name == ".lock"@ || name == ".quarantine"@
        || name == ".restore-staging"@
}

/// Whether a name under the backups root is a store internal.
pub fn is_reserved_name(name: &str) -> (r: bool)
    ensures
        r == reserved_name(name@),
{
    str_eq(name, "objects") || str_eq(name, "manifests") || str_eq(name, ".lock") || str_eq(
        name,
        ".quarantine",
    ) || str_eq(name, ".restore-staging")
}

/// The snapshot id of a file in the manifests directory: its name without the
/// `.json` suffix, unless it has no such suffix or the id is hidden (a temp).
pub open spec fn manifest_id_spec(fname: Seq<char>) -> Option<Seq<char>> {
    if ends_with_spec(fname, ".json"@) {
        let id = fname.subrange(0, fname.len() - 5);
        if starts_with_spec(id, "."@) {
            None
        } else {
            Some(id)
        }
    } else {
        None
    }
}

/// The snapshot id named by a manifest file name.
pub fn manifest_id(fname: &str) -> (r: Option<String>)
    ensures
        match r {
            Some(id) => manifest_id_spec(fname@) == Some(id@),
            None => manifest_id_spec(fname@) is None,
        },
{
    proof {
        reveal_strlit(".json");
    }
    if !ends_with(fname, ".json") {
        return None;
    }
    let v = chars_of(fname);
    let id = string_from_range(&v, 0, v.len() - 5);
    if starts_with(id.as_str(), ".") {
        return None;
    }
    Some(id)
}

/// Editor and OS junk that is left out of a content snapshot.
pub open spec fn junk_spec(name: Seq<char>) -> bool {
    name == ".DS_Store"@ || name == "Thumbs.db"@ || ends_with_spec(name, ".swp"@) || ends_with_spec(
        name,
        ".swo"@,
    ) || ends_with_spec(name, "~"@)
}

/// Whether a file is editor or OS junk.
pub fn is_junk(name: &str) -> (r: bool)
    ensures
        r == junk_spec(name@),
{
    str_eq(name, ".DS_Store") || str_eq(name, "Thumbs.db") || ends_with(name, ".swp") || ends_with(
        name,
        ".swo",
    ) || ends_with(name, "~")
}

/// Where object `sha` lives under the objects root: `<first two chars>/<sha>`.
pub open spec fn object_rel_spec(sha: Seq<char>) -> Seq<char> {
    sha.subrange(0, 2) + "/"@ + sha
}

/// The fan-out path of an object; the name must hold at least two characters.
pub fn object_rel_path(sha: &str) -> (r: String)
    requires
        sha@.len() >= 2,
    ensures
        r@ == object_rel_spec(sha@),
{
    let v = chars_of(sha);
    let mut r = string_from_range(&v, 0, 2);
    push_str(&mut r, "/");
    push_str(&mut r, sha);
    r
}

/// How a snapshot id is listed.
pub fn backup_entry(id: &str, size_bytes: u64, format: BackupFormat) -> (e: BackupEntry)
    ensures
        e.id@ == id@,
        e.created_at@ == (if is_suspect(id@) {
            id@.subrange(0, id@.len() - crate::backup::rotation::suspect_suffix().len())
        } else {
            id@
        }),
        e.size_bytes == size_bytes,
        e.integrity == (if is_suspect(id@) {
            Integrity::Suspect
        } else {
            Integrity::Intact
        }),
        e.format == format,
{
    BackupEntry {
        id: string_of(id),
        created_at: strip_suspect(id),
        size_bytes,
        integrity: suspect_of(id),
        format,
    }
}

/// The file a manifest is stored as: `<ts>.json`, or `<ts>-SUSPECT.json` when
/// it is quarantined.
pub fn manifest_file_name(ts: &str, integrity: Integrity) -> (r: String)
    ensures
        r@ == ts@ + (if integrity == Integrity::Suspect {
            "-SUSPECT"@
        } else {
            Seq::empty()
        }) + ".json"@,
{
    let mut r = string_of(ts);
    if matches!(integrity, Integrity::Suspect) {
        push_str(&mut r, "-SUSPECT");
    }
    push_str(&mut r, ".json");
    r
}

/// Only a quarantined (`*-SUSPECT`) snapshot can have its quarantine cleared.
pub fn check_quarantine_id(id: &str) -> (r: Result<(), HavenError>)
    ensures
        r is Ok <==> is_suspect(id@),
        r matches Err(e) ==> invalid_with(
            e,
            debug_quoted_spec(id@) + " is not a quarantined snapshot (expected a `*-SUSPECT` id)"@,
        ),
{
    if crate::backup::rotation::has_suspect_suffix(id) {
        return Ok(());
    }
    let mut m = debug_quoted(id);
    push_str(&mut m, " is not a quarantined snapshot (expected a `*-SUSPECT` id)");
    Err(HavenError::Invalid(m))
}

// ---- newest first -----------------------------------------------------------

/// The ids of `es`.
pub open spec fn entry_ids(es: Seq<BackupEntry>) -> Seq<Seq<char>> {
    es.map_values(|e: BackupEntry| e.id@)
}

/// Ids in non-increasing lexical (so chronological) order.
pub open spec fn newest_first_spec(ids: Seq<Seq<char>>) -> bool {
    forall|i: int, j: int| 0 <= i < j < ids.len() ==> !seq_lt(#[trigger] ids[i], #[trigger] ids[j])
}

/// Order snapshot entries newest first (ids descending). Entries with equal
/// ids keep their relative order.
pub fn newest_first(entries: Vec<BackupEntry>) -> (r: Vec<BackupEntry>)
    ensures
        r@.to_multiset() == entries@.to_multiset(),
        newest_first_spec(entry_ids(r@)),
{
    let mut out: Vec<BackupEntry> = Vec::new();
    let mut rest = entries;
    let ghost orig = rest@;
    let n0: usize = rest.len();
    let mut k: usize = 0;
    while rest.len() > 0
        invariant
            k <= orig.len(),
            rest.len() + k == orig.len(),
            orig.len() == n0,
            rest@ == orig.skip(k as int),
            out@.to_multiset() == orig.take(k as int).to_multiset(),
            newest_first_spec(entry_ids(out@)),
        decreases rest.len(),
    {
        proof {
            assert(orig.skip(k as int)[0] == orig[k as int]);
            assert(orig.skip(k as int).remove(0) =~= orig.skip(k + 1));
            assert(orig.take(k + 1) =~= orig.take(k as int).push(orig[k as int]));
        }
        let e = rest.remove(0);
        // Insert after every entry whose id is not smaller: the first position
        // holding a strictly smaller id.
        let mut p: usize = 0;
        while p < out.len() && !str_lt(out[p].id.as_str(), e.id.as_str())
            invariant
                p <= out.len(),
                forall|q: int| 0 <= q < p ==> !seq_lt(#[trigger] out@[q].id@, e.id@),
            decreases out.len() - p,
        {
            p = p + 1;
        }
        let ghost before = out@;
        proof {
            assert forall|q: int| p <= q < before.len() implies seq_lt(#[trigger] before[q].id@, e.id@) by {
                lemma_seq_lt_total(before[p as int].id@, e.id@);
                if q > p {
                    let ids = entry_ids(before);
                    assert(!seq_lt(ids[p as int], ids[q]));
                    assert(seq_lt(before[p as int].id@, e.id@));
                    lemma_seq_lt_total(before[q].id@, before[p as int].id@);
                    if before[q].id@ != before[p as int].id@ {
                        lemma_seq_lt_trans(before[q].id@, before[p as int].id@, e.id@);
                    }
                }
            }
        }
        out.insert(p, e);
        proof {
            let ids = entry_ids(out@);
            assert forall|i: int, j: int| 0 <= i < j < ids.len() implies !seq_lt(#[trigger] ids[i], #[trigger] ids[j]) by {
                let bids = entry_ids(before);
                if j < p {
                    assert(ids[i] == bids[i] && ids[j] == bids[j]);
                } else if j == p {
                    assert(ids[j] == e.id@);
                    assert(ids[i] == before[i].id@);
                } else if i > p {
                    assert(ids[i] == bids[i - 1] && ids[j] == bids[j - 1]);
                } else if i == p {
                    assert(ids[i] == e.id@);
                    assert(ids[j] == before[j - 1].id@);
                    assert(seq_lt(before[j - 1].id@, e.id@));
                    lemma_seq_lt_asym(before[j - 1].id@, e.id@);
                } else {
                    assert(ids[i] == bids[i] && ids[j] == bids[j - 1]);
                }
            }
            assert(out@ == before.insert(p as int, e));
            vstd::seq_lib::to_multiset_insert(before, p as int, e);
        }
        k = k + 1;
    }
    proof {
        assert(orig.take(orig.len() as int) =~= orig);
    }
    out
}

/// Names in non-decreasing lexical order.
pub open spec fn ascending_spec(names: Seq<Seq<char>>) -> bool {
    forall|i: int, j: int| 0 <= i < j < names.len() ==> !seq_lt(#[trigger] names[j], #[trigger] names[i])
}

/// Sort names ascending (the quarantined-snapshot listing order).
pub fn sorted_names(names: Vec<String>) -> (r: Vec<String>)
    ensures
        r@.to_multiset() == names@.to_multiset(),
        ascending_spec(strings_view(r@)),
{
    let mut out: Vec<String> = Vec::new();
    let mut rest = names;
    let ghost orig = rest@;
    let n0: usize = rest.len();
    let mut k: usize = 0;
    while rest.len() > 0
        invariant
            k <= orig.len(),
            rest.len() + k == orig.len(),
            orig.len() == n0,
            rest@ == orig.skip(k as int),
            out@.to_multiset() == orig.take(k as int).to_multiset(),
            ascending_spec(strings_view(out@)),
        decreases rest.len(),
    {
        proof {
            assert(orig.skip(k as int)[0] == orig[k as int]);
            assert(orig.skip(k as int).remove(0) =~= orig.skip(k + 1));
            assert(orig.take(k + 1) =~= orig.take(k as int).push(orig[k as int]));
        }
        let e = rest.remove(0);
        // Insert after every name not greater than it.
        let mut p: usize = 0;
        while p < out.len() && !str_lt(e.as_str(), out[p].as_str())
            invariant
                p <= out.len(),
                forall|q: int| 0 <= q < p ==> !seq_lt(e@, #[trigger] out@[q]@),
            decreases out.len() - p,
        {
            p = p + 1;
        }
        let ghost before = out@;
        proof {
            assert forall|q: int| p <= q < before.len() implies seq_lt(e@, #[trigger] before[q]@) by {
                let v = strings_view(before);
                if q > p {
                    assert(!seq_lt(v[q], v[p as int]));
                    lemma_seq_lt_total(before[q]@, before[p as int]@);
                    if before[q]@ != before[p as int]@ {
                        lemma_seq_lt_trans(e@, before[p as int]@, before[q]@);
                    }
                }
            }
        }
        out.insert(p, e);
        proof {
            let v = strings_view(out@);
            let bv = strings_view(before);
            assert forall|i: int, j: int| 0 <= i < j < v.len() implies !seq_lt(#[trigger] v[j], #[trigger] v[i]) by {
                if j < p {
                    assert(v[i] == bv[i] && v[j] == bv[j]);
                } else if j == p {
                    assert(v[j] == e@);
                    assert(v[i] == before[i]@);
                } else if i > p {
                    assert(v[i] == bv[i - 1] && v[j] == bv[j - 1]);
                } else if i == p {
                    assert(v[i] == e@);
                    assert(v[j] == before[j - 1]@);
                    assert(seq_lt(e@, before[j - 1]@));
                    lemma_seq_lt_asym(e@, before[j - 1]@);
                } else {
                    assert(v[i] == bv[i] && v[j] == bv[j - 1]);
                }
            }
            assert(out@ == before.insert(p as int, e));
            vstd::seq_lib::to_multiset_insert(before, p as int, e);
        }
        k = k + 1;
    }
    proof {
        assert(orig.take(orig.len() as int) =~= orig);
    }
    out
}

// ---- the daily backup -------------------------------------------------------

/// The daily backup is due unless today's marker is already recorded or a
/// quarantined snapshot from today exists (it keeps the day's slot until it is
/// cleared).
pub open spec fn daily_due_spec(last_backup: Option<Seq<char>>, y: int, m: int, d: int, frozen: Seq<Seq<char>>) -> bool {
    &&& last_backup != Some(ymd_spec(y, m, d))
    &&& forall|i: int| 0 <= i < frozen.len() ==> !starts_with_spec(#[trigger] frozen[i], compact_day(y, m, d))
}

/// `YYYYMMDD`.
pub open spec fn compact_day(y: int, m: int, d: int) -> Seq<char> {
    int_decimal_padded(y, 4) + int_decimal_padded(m, 2) + int_decimal_padded(d, 2)
}

/// Whether the once-a-day backup should run now, given the recorded marker,
/// today's date and the quarantined snapshot stems.
pub fn daily_backup_due(last_backup: Option<&str>, today: (i64, u32, u32), frozen: &Vec<String>) -> (r: bool)
    ensures
        r == daily_due_spec(
            match last_backup {
                Some(s) => Some(s@),
                None => None,
            },
            today.0 as int,
            today.1 as int,
            today.2 as int,
            strings_view(frozen@),
        ),
{
    let day = ymd_string(today);
    if let Some(last) = last_backup {
        if str_eq(last, day.as_str()) {
            return false;
        }
    }
    let mut compact = String::new();
    push_i64_padded(&mut compact, today.0, 4);
    push_i64_padded(&mut compact, today.1 as i64, 2);
    push_i64_padded(&mut compact, today.2 as i64, 2);
    assert(compact@ =~= compact_day(today.0 as int, today.1 as int, today.2 as int));
    let mut i: usize = 0;
    while i < frozen.len()
        invariant
            i <= frozen.len(),
            compact@ == compact_day(today.0 as int, today.1 as int, today.2 as int),
            forall|j: int| 0 <= j < i ==> !starts_with_spec(#[trigger] strings_view(frozen@)[j], compact@),
        decreases frozen.len() - i,
    {
        if starts_with(frozen[i].as_str(), compact.as_str()) {
            assert(strings_view(frozen@)[i as int] == frozen@[i as int]@);
            return false;
        }
        i = i + 1;
    }
    true
}

// ---- collection and the lock -------------------------------------------------

/// The prefix of an object write still in progress.
pub const TMP_PREFIX: &'static str = ".tmp-";

/// Whether collection reaps the object `name`: a hidden entry (the quarantine,
/// a temp write) is never touched, an object some retained manifest references
/// (`live`) is kept, and so is one younger than the grace period (`aged` false),
/// which a concurrent snapshot may be about to reference.
pub fn reaps_object(name: &str, live: bool, aged: bool) -> (r: bool)
    ensures
        r == (!starts_with_spec(name@, "."@) && !live && aged),
{
    !starts_with(name, ".") && !live && aged
}

/// Whether the sweep reclaims the entry `name` of the objects root: an
/// abandoned temp write older than the grace period.
pub fn sweeps_temp(name: &str, aged: bool) -> (r: bool)
    ensures
        r == (starts_with_spec(name@, TMP_PREFIX@) && aged),
{
    starts_with(name, TMP_PREFIX) && aged
}

/// What an exclusive create of the lockfile reported.
#[derive(Debug, Clone, Copy, PartialEq, Eq, Structural)]
pub enum LockCreate {
    Created,
    Exists,
    Failed,
}

/// The next move of a lock acquisition.
#[derive(Debug, Clone, Copy, PartialEq, Eq, Structural)]
pub enum LockMove {
    /// The lock is held: go on.
    Acquired,
    /// Another live process holds it: skip the work (not an error).
    Busy,
    /// Remove the stale lockfile a crashed holder left, then create once more.
    Steal,
    /// Report the create's error.
    Fail,
}

/// The acquisition's step function: after a create (the first, or the retry
/// after a steal), given whether an existing lockfile is older than the stale
/// threshold. A held lock is stolen at most once; a retry that still finds a
/// lock gives way.
pub open spec fn lock_move_spec(retried: bool, created: LockCreate, stale: bool) -> LockMove {
    match created {
        LockCreate::Created => LockMove::Acquired,
        LockCreate::Failed => LockMove::Fail,
        LockCreate::Exists => if !retried && stale {
            LockMove::Steal
        } else {
            LockMove::Busy
        },
    }
}

/// Decide the next move of a lock acquisition.
pub fn next_lock_move(retried: bool, created: LockCreate, stale: bool) -> (r: LockMove)
    ensures
        r == lock_move_spec(retried, created, stale),
{
    match created {
        LockCreate::Created => LockMove::Acquired,
        LockCreate::Failed => LockMove::Fail,
        LockCreate::Exists => if !retried && stale {
            LockMove::Steal
        } else {
            LockMove::Busy
        },
    }
}

/// A lock is stolen at most once: after the retry no move is `Steal`, and a
/// fresh lock held by another process is never stolen.
pub proof fn lemma_lock_steals_at_most_once(created: LockCreate, stale: bool)
    ensures
        lock_move_spec(true, created, stale) != LockMove::Steal,
        lock_move_spec(false, created, false) != LockMove::Steal,
{
}

} // verus!
