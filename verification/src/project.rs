//! The project lifecycle: how a new project's ref prefix is chosen, which
//! projects may be selected or written to, what archiving and reopening do to a
//! project's row, and the hints a failed project selection carries. Archiving
//! and reopening never touch the ref namespace (key, prefix, counter), so refs
//! are never reused and a reopen restores the project completely.

use vstd::prelude::*;
use crate::error::{invalid_with, HavenError};
use crate::item::{all_whitespace, blank, opt_view};
use crate::model::{Project, ProjectStatus, SyncState};
use crate::text::{
    chars_of, debug_quoted, debug_quoted_spec, push_str, str_eq, string_from_range, string_of,
    strings_view, to_uppercase, to_uppercase_spec,
};
use crate::words::{join, push_joined};

verus! {

// ---- creation ---------------------------------------------------------------

/// The refusal of a blank project key.
pub open spec fn empty_key_msg() -> Seq<char> {
    "project key must not be empty"@
}

/// The first two characters of `key` (all of it when shorter).
pub open spec fn first_two(key: Seq<char>) -> Seq<char> {
    if key.len() < 2 {
        key
    } else {
        key.subrange(0, 2)
    }
}

/// The ref prefix of a new project: the given prefix upper-cased, else the
/// first two characters of the key upper-cased.
pub open spec fn prefix_spec(key: Seq<char>, prefix: Option<Seq<char>>) -> Seq<char> {
    match prefix {
        Some(p) => to_uppercase_spec(p),
        None => to_uppercase_spec(first_two(key)),
    }
}

/// Check a new project's key and choose its ref prefix.
pub fn project_prefix(key: &str, prefix: Option<&str>) -> (r: Result<String, HavenError>)
    ensures
        match r {
            Ok(p) => !blank(key@) && p@ == prefix_spec(key@, opt_view(prefix)),
            Err(e) => blank(key@) && invalid_with(e, empty_key_msg()),
        },
{
    if all_whitespace(key) {
        return Err(HavenError::Invalid(string_of("project key must not be empty")));
    }
    match prefix {
        Some(p) => Ok(to_uppercase(p)),
        None => {
            let v = chars_of(key);
            let n: usize = if v.len() < 2 {
                v.len()
            } else {
                2
            };
            let head = string_from_range(&v, 0, n);
            proof {
                if v.len() < 2 {
                    assert(v@.subrange(0, n as int) =~= v@);
                }
            }
            Ok(to_uppercase(head.as_str()))
        },
    }
}

// ---- selection --------------------------------------------------------------

/// The tail appended to a failed project selection: the active project keys,
/// or how to create a first project.
pub open spec fn projects_hint_spec(keys: Seq<Seq<char>>) -> Seq<char> {
    if keys.len() == 0 {
        " — no projects exist yet; create one with `haven_add_project` (MCP) or `haven project add` (CLI)"@
    } else {
        " — available projects: "@ + join(keys, ", "@)
    }
}

/// Compose the available-projects hint from the active keys.
pub fn available_projects_hint(keys: &Vec<String>) -> (r: String)
    ensures
        r@ == projects_hint_spec(strings_view(keys@)),
{
    if keys.len() == 0 {
        return string_of(
            " — no projects exist yet; create one with `haven_add_project` (MCP) or `haven project add` (CLI)",
        );
    }
    let mut r = string_of(" — available projects: ");
    let mut ws: Vec<Vec<char>> = Vec::new();
    let mut i: usize = 0;
    while i < keys.len()
        invariant
            i <= keys.len(),
            ws@.len() == i,
            forall|k: int| 0 <= k < i ==> (#[trigger] ws@[k])@ == keys@[k]@,
        decreases keys.len() - i,
    {
        ws.push(chars_of(keys[i].as_str()));
        i = i + 1;
    }
    assert(ws@.map_values(|w: Vec<char>| w@) =~= strings_view(keys@));
    push_joined(&mut r, &ws, ", ");
    r
}

/// The refusal when no project was named and none is selected.
pub open spec fn no_project_msg(hint: Seq<char>) -> Seq<char> {
    "no project selected; pass `project` (MCP) or `--project` / `haven project use` (CLI)"@ + hint
}

/// The key a project-scoped operation uses: the explicit selector, else the
/// current selection; with neither, `Invalid` carrying `hint`.
pub fn select_project_key(selector: Option<&str>, current: Option<String>, hint: &str) -> (r: Result<
    String,
    HavenError,
>)
    ensures
        match r {
            Ok(k) => match selector {
                Some(s) => k@ == s@,
                None => current matches Some(c) && k == c,
            },
            Err(e) => selector is None && current is None && invalid_with(e, no_project_msg(hint@)),
        },
{
    match selector {
        Some(s) => Ok(string_of(s)),
        None => match current {
            Some(c) => Ok(c),
            None => {
                let mut msg = string_of(
                    "no project selected; pass `project` (MCP) or `--project` / `haven project use` (CLI)",
                );
                push_str(&mut msg, hint);
                Err(HavenError::Invalid(msg))
            },
        },
    }
}

/// The not-found message of an absent (or deleted) project.
pub open spec fn project_missing_msg(key: Seq<char>, hint: Seq<char>) -> Seq<char> {
    "project "@ + debug_quoted_spec(key) + hint
}

/// The `NotFound` of an absent (or deleted) project, with the hint.
pub fn project_not_found(key: &str, hint: &str) -> (e: HavenError)
    ensures
        e matches HavenError::NotFound(m) && m@ == project_missing_msg(key@, hint@),
{
    let mut msg = string_of("project ");
    let q = debug_quoted(key);
    push_str(&mut msg, q.as_str());
    push_str(&mut msg, hint);
    HavenError::NotFound(msg)
}

/// The refusal to select an archived project.
pub open spec fn use_archived_msg(key: Seq<char>) -> Seq<char> {
    "project "@ + debug_quoted_spec(key) + " is archived; reopen it first"@
}

/// Whether a project may become the current selection: an archived one may not.
pub fn check_use_project(key: &str, status: ProjectStatus) -> (r: Result<(), HavenError>)
    ensures
        r is Ok <==> status == ProjectStatus::Active,
        r matches Err(e) ==> invalid_with(e, use_archived_msg(key@)),
{
    match status {
        ProjectStatus::Active => Ok(()),
        ProjectStatus::Archived => {
            let mut msg = string_of("project ");
            let q = debug_quoted(key);
            push_str(&mut msg, q.as_str());
            push_str(&mut msg, " is archived; reopen it first");
            Err(HavenError::Invalid(msg))
        },
    }
}

/// The refusal to write into an archived project.
pub open spec fn write_archived_msg(key: Seq<char>) -> Seq<char> {
    "project "@ + debug_quoted_spec(key) + " is archived; reopen it to add or change items"@
}

/// Whether items of a project may be added or changed: reads work under
/// archive, writes do not.
pub fn check_writable(key: &str, status: ProjectStatus) -> (r: Result<(), HavenError>)
    ensures
        r is Ok <==> status == ProjectStatus::Active,
        r matches Err(e) ==> invalid_with(e, write_archived_msg(key@)),
{
    match status {
        ProjectStatus::Active => Ok(()),
        ProjectStatus::Archived => {
            let mut msg = string_of("project ");
            let q = debug_quoted(key);
            push_str(&mut msg, q.as_str());
            push_str(&mut msg, " is archived; reopen it to add or change items");
            Err(HavenError::Invalid(msg))
        },
    }
}

// ---- archive and reopen -----------------------------------------------------

/// A project's row after `archive`: an archived project is left as it is; an
/// active one becomes archived at `now` with `reason`, its revision bumped and
/// marked local. The key, prefix and counter are never part of the change.
pub open spec fn archived_row(p: Project, reason: Option<String>, now: String) -> Project {
    if p.status == ProjectStatus::Archived {
        p
    } else {
        Project {
            id: p.id,
            public_id: p.public_id,
            key: p.key,
            ref_prefix: p.ref_prefix,
            ref_counter: p.ref_counter,
            title: p.title,
            description: p.description,
            created_at: p.created_at,
            updated_at: now,
            revision: (p.revision + 1) as i64,
            sync_state: SyncState::Local,
            status: ProjectStatus::Archived,
            archived_at: Some(now),
            archived_reason: reason,
            deleted_at: p.deleted_at,
        }
    }
}

/// A project's row after `reopen` of an archived project: active again, the
/// archive stamp and reason cleared, its revision bumped and marked local.
pub open spec fn reopened_row(p: Project, now: String) -> Project {
    Project {
        id: p.id,
        public_id: p.public_id,
        key: p.key,
        ref_prefix: p.ref_prefix,
        ref_counter: p.ref_counter,
        title: p.title,
        description: p.description,
        created_at: p.created_at,
        updated_at: now,
        revision: (p.revision + 1) as i64,
        sync_state: SyncState::Local,
        status: ProjectStatus::Active,
        archived_at: None,
        archived_reason: None,
        deleted_at: p.deleted_at,
    }
}

/// Archive a project's row at `now`; also says whether the current selection
/// must be cleared, which is when it names the project just archived (an
/// already-archived project is a no-op and clears nothing).
pub fn archive_project_row(p: Project, reason: Option<String>, now: String, current: Option<&str>) -> (r: (
    Project,
    bool,
))
    requires
        p.status == ProjectStatus::Active ==> p.revision < i64::MAX,
    ensures
        r.0 == archived_row(p, reason, now),
        r.1 == (p.status == ProjectStatus::Active && (current matches Some(c) && c@ == p.key@)),
{
    match p.status {
        ProjectStatus::Archived => (p, false),
        ProjectStatus::Active => {
            let clear = match current {
                Some(c) => str_eq(c, p.key.as_str()),
                None => false,
            };
            let q = Project {
                id: p.id,
                public_id: p.public_id,
                key: p.key,
                ref_prefix: p.ref_prefix,
                ref_counter: p.ref_counter,
                title: p.title,
                description: p.description,
                created_at: p.created_at,
                updated_at: now.clone(),
                revision: p.revision + 1,
                sync_state: SyncState::Local,
                status: ProjectStatus::Archived,
                archived_at: Some(now),
                archived_reason: reason,
                deleted_at: p.deleted_at,
            };
            (q, clear)
        },
    }
}

/// The refusal to reopen a project that is not archived.
pub open spec fn reopen_active_msg() -> Seq<char> {
    "cannot reopen a project that is not archived"@
}

/// Reopen a project's row at `now`; an active project is refused.
pub fn reopen_project_row(p: Project, now: String) -> (r: Result<Project, HavenError>)
    requires
        p.status == ProjectStatus::Archived ==> p.revision < i64::MAX,
    ensures
        match r {
            Ok(q) => p.status == ProjectStatus::Archived && q == reopened_row(p, now),
            Err(e) => p.status == ProjectStatus::Active && invalid_with(e, reopen_active_msg()),
        },
{
    match p.status {
        ProjectStatus::Active => Err(
            HavenError::Invalid(string_of("cannot reopen a project that is not archived")),
        ),
        ProjectStatus::Archived => Ok(
            Project {
                id: p.id,
                public_id: p.public_id,
                key: p.key,
                ref_prefix: p.ref_prefix,
                ref_counter: p.ref_counter,
                title: p.title,
                description: p.description,
                created_at: p.created_at,
                updated_at: now,
                revision: p.revision + 1,
                sync_state: SyncState::Local,
                status: ProjectStatus::Active,
                archived_at: None,
                archived_reason: None,
                deleted_at: p.deleted_at,
            },
        ),
    }
}

// ---- laws -------------------------------------------------------------------

/// Archiving is idempotent: archiving an archived project changes nothing, not
/// even its revision.
pub proof fn lemma_archive_idempotent(
    p: Project,
    reason: Option<String>,
    now: String,
    reason2: Option<String>,
    now2: String,
)
    ensures
        archived_row(archived_row(p, reason, now), reason2, now2) == archived_row(p, reason, now),
{
}

/// Reopen undoes archive: an active project archived and then reopened is
/// active again with its ref namespace, identity, title and description as
/// they were, and no archive stamp or reason.
pub proof fn lemma_reopen_undoes_archive(p: Project, reason: Option<String>, now: String, now2: String)
    requires
        p.status == ProjectStatus::Active,
    ensures
        archived_row(p, reason, now).status == ProjectStatus::Archived,
        ({
            let q = reopened_row(archived_row(p, reason, now), now2);
            &&& q.status == ProjectStatus::Active
            &&& q.key == p.key
            &&& q.ref_prefix == p.ref_prefix
            &&& q.ref_counter == p.ref_counter
            &&& q.id == p.id
            &&& q.public_id == p.public_id
            &&& q.title == p.title
            &&& q.description == p.description
            &&& q.created_at == p.created_at
            &&& q.deleted_at == p.deleted_at
            &&& q.archived_at is None
            &&& q.archived_reason is None
        }),
{
}

/// The ref namespace is reserved across the lifecycle: neither archiving nor
/// reopening changes a project's key, ref prefix or ref counter.
pub proof fn lemma_lifecycle_keeps_namespace(p: Project, reason: Option<String>, now: String)
    ensures
        archived_row(p, reason, now).key == p.key,
        archived_row(p, reason, now).ref_prefix == p.ref_prefix,
        archived_row(p, reason, now).ref_counter == p.ref_counter,
        reopened_row(p, now).key == p.key,
        reopened_row(p, now).ref_prefix == p.ref_prefix,
        reopened_row(p, now).ref_counter == p.ref_counter,
{
}

} // verus!
