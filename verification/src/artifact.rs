//! Artifact requests: the checks an `artifact add` makes before it touches the
//! content tree, where a file artifact lands, the `(node, path)` collision rule,
//! which artifact a read or a selector names, and where a rename moves a file.

use vstd::prelude::*;
use crate::content::{basename, basename_spec, metadata_error, plain_name, validate_plain_name, validate_xref_metadata};
use crate::error::{invalid_with, not_found_with, HavenError};
use crate::json::{json_text, to_json_text, Json};
use crate::model::{artifact_role_name, Artifact, ArtifactKind, ArtifactRole, ArtifactSelector, OwnerKind};
use crate::text::{chars_of, debug_quoted, debug_quoted_spec, nat_digits, push_str, push_usize, str_eq, string_from_range, string_of};
use crate::time::{ymd_spec, ymd_string};
use crate::words::{join, push_joined};

verus! {

/// Parameters for `artifact add`.
#[derive(Debug)]
pub struct NewArtifact {
    pub role: ArtifactRole,
    pub kind: ArtifactKind,
    /// Source file to copy into the content tree (kind = file).
    pub file: Option<String>,
    /// Inline content to materialize into a file (kind = file).
    pub content: Option<String>,
    /// Destination file name: for inline content (default `<role>.md`) and, when
    /// set, for a source file (else the source's own file name).
    pub name: Option<String>,
    pub uri: Option<String>,
    pub title: Option<String>,
    pub excerpt: Option<String>,
    pub from_owner: Option<OwnerKind>,
    pub to_owner: Option<OwnerKind>,
    pub created_by: Option<String>,
    /// Free-form JSON sidecar; a present `xref` array is validated on write.
    pub metadata: Option<Json>,
    /// An existing artifact at the destination path is replaced in place when
    /// set, refused otherwise.
    pub replace: bool,
}

impl Default for NewArtifact {
    fn default() -> (r: NewArtifact)
        ensures
            r.role == ArtifactRole::Scratch,
            r.kind == ArtifactKind::File,
            r.file is None,
            r.content is None,
            r.name is None,
            r.uri is None,
            r.title is None,
            r.excerpt is None,
            r.from_owner is None,
            r.to_owner is None,
            r.created_by is None,
            r.metadata is None,
            !r.replace,
    {
        NewArtifact {
            role: ArtifactRole::Scratch,
            kind: ArtifactKind::File,
            file: None,
            content: None,
            name: None,
            uri: None,
            title: None,
            excerpt: None,
            from_owner: None,
            to_owner: None,
            created_by: None,
            metadata: None,
            replace: false,
        }
    }
}

/// The bytes (as text) behind an artifact, returned by `artifact get`.
#[derive(Debug, Clone)]
pub struct ArtifactContent {
    pub node_ref: String,
    pub role: ArtifactRole,
    pub path: Option<String>,
    pub uri: Option<String>,
    pub content: Option<String>,
}

// ---- adding -----------------------------------------------------------------

/// The first refusal of an `artifact add` request, checked before any file is
/// read or written: a handoff without both owners, bad xref metadata, a file
/// artifact with both or neither source, an external artifact without a URI.
pub open spec fn new_artifact_error(new: NewArtifact) -> Option<Seq<char>> {
    if new.role == ArtifactRole::Handoff && (new.from_owner is None || new.to_owner is None) {
        Some("a handoff artifact must carry --from and --to"@)
    } else if new.metadata matches Some(m) && metadata_error(m) is Some {
        metadata_error(new.metadata.unwrap())
    } else if new.kind == ArtifactKind::File {
        if new.file is Some && new.content is Some {
            Some("provide either a source --file or inline --content, not both"@)
        } else if new.file is None && new.content is None {
            Some("a file artifact requires --file <path> or inline --content"@)
        } else {
            None
        }
    } else if new.uri is None {
        Some("an external artifact requires --uri"@)
    } else {
        None
    }
}

/// Check an `artifact add` request before any file is read or written.
pub fn check_new_artifact(new: &NewArtifact) -> (r: Result<(), HavenError>)
    ensures
        match r {
            Ok(()) => new_artifact_error(*new) is None,
            Err(e) => new_artifact_error(*new) matches Some(m) && invalid_with(e, m),
        },
{
    if matches!(new.role, ArtifactRole::Handoff) && (new.from_owner.is_none() || new.to_owner.is_none()) {
        return Err(HavenError::Invalid(string_of("a handoff artifact must carry --from and --to")));
    }
    if let Some(meta) = &new.metadata {
        validate_xref_metadata(meta)?;
    }
    match new.kind {
        ArtifactKind::File => {
            if new.file.is_some() && new.content.is_some() {
                return Err(
                    HavenError::Invalid(
                        string_of("provide either a source --file or inline --content, not both"),
                    ),
                );
            }
            if new.file.is_none() && new.content.is_none() {
                return Err(
                    HavenError::Invalid(
                        string_of("a file artifact requires --file <path> or inline --content"),
                    ),
                );
            }
            Ok(())
        },
        _ => {
            if new.uri.is_none() {
                return Err(HavenError::Invalid(string_of("an external artifact requires --uri")));
            }
            Ok(())
        },
    }
}

/// The text stored in the metadata column: the compact JSON of a present,
/// non-null value; `{}` otherwise, so an absent sidecar reads back as absent.
pub open spec fn metadata_text_spec(meta: Option<Json>) -> Seq<char> {
    match meta {
        Some(m) => if m is Null {
            "{}"@
        } else {
            json_text(m)
        },
        None => "{}"@,
    }
}

/// Serialize an artifact's metadata for its column.
pub fn metadata_text(meta: &Option<Json>) -> (r: String)
    ensures
        r@ == metadata_text_spec(*meta),
{
    match meta {
        Some(m) => if matches!(m, Json::Null) {
            string_of("{}")
        } else {
            to_json_text(m)
        },
        None => string_of("{}"),
    }
}

/// What a stored metadata value reads back as: `null` and the empty object are
/// "no metadata", so an artifact without any reads as it did before the column
/// existed.
pub open spec fn stored_metadata_spec(v: Json) -> Option<Json> {
    match v {
        Json::Null => None,
        Json::Object(members) => if members@.len() == 0 {
            None
        } else {
            Some(v)
        },
        _ => Some(v),
    }
}

/// Read a parsed metadata column value back as an artifact's metadata.
pub fn stored_metadata(v: Json) -> (r: Option<Json>)
    ensures
        r == stored_metadata_spec(v),
{
    let empty = match &v {
        Json::Null => true,
        Json::Object(members) => members.len() == 0,
        _ => false,
    };
    if empty {
        None
    } else {
        Some(v)
    }
}

/// The destination file name of a file artifact: the given name, else
/// `<role>.md` for inline content or the source's own file name for a copy.
pub open spec fn file_name_spec(
    role: ArtifactRole,
    name: Option<Seq<char>>,
    inline: bool,
    source_name: Option<Seq<char>>,
) -> Option<Seq<char>> {
    match name {
        Some(n) => Some(n),
        None => if inline {
            Some(artifact_role_name(role) + ".md"@)
        } else {
            source_name
        },
    }
}

/// Pick the destination file name of a file artifact; a source path without a
/// file name is refused.
pub fn artifact_file_name(
    role: ArtifactRole,
    name: &Option<String>,
    inline: bool,
    source_name: &Option<String>,
) -> (r: Result<String, HavenError>)
    ensures
        match r {
            Ok(f) => file_name_spec(
                role,
                crate::item::opt_string_view(*name),
                inline,
                crate::item::opt_string_view(*source_name),
            ) == Some(f@),
            Err(e) => file_name_spec(
                role,
                crate::item::opt_string_view(*name),
                inline,
                crate::item::opt_string_view(*source_name),
            ) is None && invalid_with(e, "source has no file name"@),
        },
{
    match name {
        Some(n) => Ok(n.clone()),
        None => if inline {
            let mut f = string_of(role.as_str());
            push_str(&mut f, ".md");
            Ok(f)
        } else {
            match source_name {
                Some(s) => Ok(s.clone()),
                None => Err(HavenError::Invalid(string_of("source has no file name"))),
            }
        },
    }
}

/// The item directory a file artifact of `role` lands in: `items/<ref>`, or
/// `items/<ref>/notes` for a handoff.
pub open spec fn subdir_spec(node_ref: Seq<char>, role: ArtifactRole) -> Seq<char> {
    if role == ArtifactRole::Handoff {
        "items/"@ + node_ref + "/notes"@
    } else {
        "items/"@ + node_ref
    }
}

/// Where a file artifact lands, `(subdir, relative path)`, once its file name
/// is checked to be a single plain component.
pub fn artifact_location(node_ref: &str, role: ArtifactRole, file_name: &str) -> (r: Result<
    (String, String),
    HavenError,
>)
    ensures
        match r {
            Ok((d, p)) => plain_name(file_name@) && d@ == subdir_spec(node_ref@, role) && p@
                == subdir_spec(node_ref@, role) + "/"@ + file_name@,
            Err(e) => !plain_name(file_name@) && invalid_with(
                e,
                "artifact file name "@ + debug_quoted_spec(file_name@) + " must be a plain file name"@,
            ),
        },
{
    validate_plain_name(file_name)?;
    let mut d = string_of("items/");
    push_str(&mut d, node_ref);
    if matches!(role, ArtifactRole::Handoff) {
        push_str(&mut d, "/notes");
    }
    let mut p = d.clone();
    push_str(&mut p, "/");
    push_str(&mut p, file_name);
    proof {
        assert(d@ =~= subdir_spec(node_ref@, role));
    }
    Ok((d, p))
}

/// The characters of an artifact's optional path.
pub open spec fn path_of(a: Artifact) -> Option<Seq<char>> {
    match a.path {
        Some(p) => Some(p@),
        None => None,
    }
}

/// Whether `a` sits at `path`.
fn at_path(a: &Artifact, path: &str) -> (r: bool)
    ensures
        r == (path_of(*a) == Some(path@)),
{
    match &a.path {
        Some(p) => str_eq(p.as_str(), path),
        None => false,
    }
}

/// The first artifact at `path`: the collision key of an add is `(node,
/// path)`, not `(node, role)`.
pub fn find_by_path(artifacts: &[Artifact], path: &str) -> (r: Option<usize>)
    ensures
        match r {
            Some(i) => i < artifacts@.len() && path_of(artifacts@[i as int]) == Some(path@) && forall|j: int|
                0 <= j < i ==> path_of(#[trigger] artifacts@[j]) != Some(path@),
            None => forall|j: int| 0 <= j < artifacts@.len() ==> path_of(#[trigger] artifacts@[j]) != Some(path@),
        },
{
    let mut i: usize = 0;
    while i < artifacts.len()
        invariant
            i <= artifacts.len(),
            forall|j: int| 0 <= j < i ==> path_of(#[trigger] artifacts@[j]) != Some(path@),
        decreases artifacts.len() - i,
    {
        if at_path(&artifacts[i], path) {
            return Some(i);
        }
        i += 1;
    }
    None
}

/// The refusal of an add onto an occupied path without `replace`.
pub open spec fn collision_msg(a: Artifact, node_ref: Seq<char>) -> Seq<char> {
    "an artifact already exists at "@ + debug_quoted_spec(
        match a.path {
            Some(p) => p@,
            None => Seq::empty(),
        },
    ) + " on "@ + debug_quoted_spec(node_ref) + " (role "@ + artifact_role_name(a.role) + ", id "@
        + a.public_id@ + "); pass --replace to overwrite it, or remove it first with `haven artifact rm`"@
}

/// An add onto an occupied path is refused unless it asked to replace.
pub fn check_collision(existing: Option<&Artifact>, node_ref: &str, replace: bool) -> (r: Result<
    (),
    HavenError,
>)
    ensures
        r is Ok <==> (existing is None || replace),
        r matches Err(e) ==> invalid_with(e, collision_msg(*existing.unwrap(), node_ref@)),
{
    match existing {
        Some(a) => {
            if replace {
                return Ok(());
            }
            let mut m = string_of("an artifact already exists at ");
            let path = match &a.path {
                Some(p) => debug_quoted(p.as_str()),
                None => debug_quoted(""),
            };
            push_str(&mut m, path.as_str());
            push_str(&mut m, " on ");
            let q = debug_quoted(node_ref);
            push_str(&mut m, q.as_str());
            push_str(&mut m, " (role ");
            push_str(&mut m, a.role.as_str());
            push_str(&mut m, ", id ");
            push_str(&mut m, a.public_id.as_str());
            push_str(
                &mut m,
                "); pass --replace to overwrite it, or remove it first with `haven artifact rm`",
            );
            proof {
                reveal_strlit("");
                assert(""@ =~= Seq::<char>::empty());
                assert(m@ =~= collision_msg(*a, node_ref@));
            }
            Err(HavenError::Invalid(m))
        },
        None => Ok(()),
    }
}

} // verus!

verus! {

// ---- reading ----------------------------------------------------------------

/// The last artifact of `role`, if any.
pub open spec fn last_with_role(artifacts: Seq<Artifact>, role: ArtifactRole, i: int) -> bool {
    0 <= i < artifacts.len() && artifacts[i].role == role && forall|j: int|
        i < j < artifacts.len() ==> (#[trigger] artifacts[j]).role != role
}

/// The index of the last artifact of `role`.
fn last_of_role(artifacts: &[Artifact], role: ArtifactRole) -> (r: Option<usize>)
    ensures
        match r {
            Some(i) => last_with_role(artifacts@, role, i as int),
            None => forall|j: int| 0 <= j < artifacts@.len() ==> (#[trigger] artifacts@[j]).role != role,
        },
{
    let mut k = artifacts.len();
    while k > 0
        invariant
            k <= artifacts.len(),
            forall|j: int| k <= j < artifacts@.len() ==> (#[trigger] artifacts@[j]).role != role,
        decreases k,
    {
        if artifacts[k - 1].role == role {
            return Some(k - 1);
        }
        k = k - 1;
    }
    None
}

/// The refusal of a read that names no artifact.
pub open spec fn no_artifact_msg(node_ref: Seq<char>) -> Seq<char> {
    "artifact on "@ + debug_quoted_spec(node_ref)
}

/// Which artifact `artifact get` reads: the first at `path` when a path is
/// given, else the latest of `role` when a role is given, else the latest of
/// all (artifacts are in creation order).
pub fn choose_for_read(
    artifacts: &[Artifact],
    role: Option<ArtifactRole>,
    path: Option<&str>,
    node_ref: &str,
) -> (r: Result<usize, HavenError>)
    ensures
        match r {
            Ok(i) => i < artifacts@.len() && match path {
                Some(p) => path_of(artifacts@[i as int]) == Some(p@) && forall|j: int|
                    0 <= j < i ==> path_of(#[trigger] artifacts@[j]) != Some(p@),
                None => match role {
                    Some(ro) => last_with_role(artifacts@, ro, i as int),
                    None => i == artifacts@.len() - 1,
                },
            },
            Err(e) => not_found_with(e, no_artifact_msg(node_ref@)) && match path {
                Some(p) => forall|j: int| 0 <= j < artifacts@.len() ==> path_of(#[trigger] artifacts@[j]) != Some(p@),
                None => match role {
                    Some(ro) => forall|j: int| 0 <= j < artifacts@.len() ==> (#[trigger] artifacts@[j]).role != ro,
                    None => artifacts@.len() == 0,
                },
            },
        },
{
    let found = match path {
        Some(p) => find_by_path(artifacts, p),
        None => match role {
            Some(ro) => last_of_role(artifacts, ro),
            None => if artifacts.len() > 0 {
                Some(artifacts.len() - 1)
            } else {
                None
            },
        },
    };
    match found {
        Some(i) => Ok(i),
        None => {
            let mut m = string_of("artifact on ");
            let q = debug_quoted(node_ref);
            push_str(&mut m, q.as_str());
            Err(HavenError::NotFound(m))
        },
    }
}

/// The error of a file artifact whose content cannot be read locally: a typed
/// "not local" signal when the file is absent but a synced remote copy exists,
/// otherwise a not-found naming the file and the read error.
pub fn unreadable_content(
    project: String,
    rel_path: String,
    remote_path: Option<String>,
    content_hash: Option<String>,
    exists: bool,
    shown_path: &str,
    reason: &str,
) -> (e: HavenError)
    ensures
        match remote_path {
            Some(rp) => if !exists {
                e == (HavenError::ContentNotLocal {
                    project,
                    rel_path,
                    remote_path: rp,
                    content_hash,
                })
            } else {
                not_found_with(e, "content file "@ + shown_path@ + " not present locally: "@ + reason@)
            },
            None => not_found_with(e, "content file "@ + shown_path@ + " not present locally: "@ + reason@),
        },
{
    if let Some(rp) = remote_path {
        if !exists {
            return HavenError::ContentNotLocal { project, rel_path, remote_path: rp, content_hash };
        }
    }
    let mut m = string_of("content file ");
    push_str(&mut m, shown_path);
    push_str(&mut m, " not present locally: ");
    push_str(&mut m, reason);
    HavenError::NotFound(m)
}

} // verus!

verus! {

// ---- selecting one artifact -------------------------------------------------

/// The Rust name of each artifact role, as a selector's debug form shows it.
pub open spec fn role_variant(r: ArtifactRole) -> Seq<char> {
    match r {
        ArtifactRole::Scratch => "Scratch"@,
        ArtifactRole::Spec => "Spec"@,
        ArtifactRole::Source => "Source"@,
        ArtifactRole::Research => "Research"@,
        ArtifactRole::Vision => "Vision"@,
        ArtifactRole::Handoff => "Handoff"@,
        ArtifactRole::Delivery => "Delivery"@,
        ArtifactRole::ContextPack => "ContextPack"@,
    }
}

fn role_variant_str(r: ArtifactRole) -> (s: &'static str)
    ensures
        s@ == role_variant(r),
{
    match r {
        ArtifactRole::Scratch => "Scratch",
        ArtifactRole::Spec => "Spec",
        ArtifactRole::Source => "Source",
        ArtifactRole::Research => "Research",
        ArtifactRole::Vision => "Vision",
        ArtifactRole::Handoff => "Handoff",
        ArtifactRole::Delivery => "Delivery",
        ArtifactRole::ContextPack => "ContextPack",
    }
}

/// A selector as its debug form: `Role(Spec)`, `Name("a.md")`, `Id("...")`.
pub open spec fn selector_text(sel: ArtifactSelector) -> Seq<char> {
    match sel {
        ArtifactSelector::Role(r) => "Role("@ + role_variant(r) + ")"@,
        ArtifactSelector::Name(n) => "Name("@ + debug_quoted_spec(n@) + ")"@,
        ArtifactSelector::Id(i) => "Id("@ + debug_quoted_spec(i@) + ")"@,
    }
}

fn selector_string(sel: &ArtifactSelector) -> (s: String)
    ensures
        s@ == selector_text(*sel),
{
    match sel {
        ArtifactSelector::Role(r) => {
            let mut s = string_of("Role(");
            push_str(&mut s, role_variant_str(*r));
            push_str(&mut s, ")");
            s
        },
        ArtifactSelector::Name(n) => {
            let mut s = string_of("Name(");
            let q = debug_quoted(n.as_str());
            push_str(&mut s, q.as_str());
            push_str(&mut s, ")");
            s
        },
        ArtifactSelector::Id(i) => {
            let mut s = string_of("Id(");
            let q = debug_quoted(i.as_str());
            push_str(&mut s, q.as_str());
            push_str(&mut s, ")");
            s
        },
    }
}

/// Whether `a` is named by `sel`: by role, by its file name (the last path
/// segment), or by its public id.
pub open spec fn selects(a: Artifact, sel: ArtifactSelector) -> bool {
    match sel {
        ArtifactSelector::Role(r) => a.role == r,
        ArtifactSelector::Name(n) => path_of(a) matches Some(p) && basename_spec(p) == n@,
        ArtifactSelector::Id(i) => a.public_id@ == i@,
    }
}

/// The indices among the first `n` artifacts that `sel` names, in order.
pub open spec fn matches_upto(artifacts: Seq<Artifact>, sel: ArtifactSelector, n: int) -> Seq<int>
    decreases n,
{
    if n <= 0 {
        Seq::empty()
    } else {
        matches_upto(artifacts, sel, n - 1) + (if selects(artifacts[n - 1], sel) {
            seq![n - 1]
        } else {
            Seq::empty()
        })
    }
}

/// How an ambiguous match lists an artifact: `name (id)`, `?` for a pathless one.
pub open spec fn match_label(a: Artifact) -> Seq<char> {
    (match path_of(a) {
        Some(p) => basename_spec(p),
        None => "?"@,
    }) + " ("@ + a.public_id@ + ")"@
}

/// The labels of the artifacts at `idx`.
pub open spec fn labels_at(artifacts: Seq<Artifact>, idx: Seq<int>) -> Seq<Seq<char>> {
    idx.map_values(|i: int| match_label(artifacts[i]))
}

/// The characters of each word.
pub open spec fn word_views(ws: Seq<Vec<char>>) -> Seq<Seq<char>> {
    ws.map_values(|w: Vec<char>| w@)
}

/// The refusal of a selector that names nothing.
pub open spec fn unmatched_msg(sel: ArtifactSelector) -> Seq<char> {
    "no artifact matched "@ + selector_text(sel)
}

/// The refusal of a selector that names several artifacts, listing them.
pub open spec fn ambiguous_msg(artifacts: Seq<Artifact>, sel: ArtifactSelector, idx: Seq<int>) -> Seq<char> {
    "selector "@ + selector_text(sel) + " is ambiguous — matched "@ + nat_digits(idx.len())
        + " artifacts; disambiguate by --name or --id ("@ + join(
        labels_at(artifacts, idx),
        ", "@,
    ) + ")"@
}

fn selects_exec(a: &Artifact, sel: &ArtifactSelector) -> (r: bool)
    ensures
        r == selects(*a, *sel),
{
    match sel {
        ArtifactSelector::Role(r) => a.role == *r,
        ArtifactSelector::Name(n) => match &a.path {
            Some(p) => {
                let b = basename(p.as_str());
                str_eq(b.as_str(), n.as_str())
            },
            None => false,
        },
        ArtifactSelector::Id(i) => str_eq(a.public_id.as_str(), i.as_str()),
    }
}

fn label_chars(a: &Artifact) -> (r: Vec<char>)
    ensures
        r@ == match_label(*a),
{
    let mut s = match &a.path {
        Some(p) => basename(p.as_str()),
        None => string_of("?"),
    };
    push_str(&mut s, " (");
    push_str(&mut s, a.public_id.as_str());
    push_str(&mut s, ")");
    chars_of(s.as_str())
}

/// Resolve a selector to the single artifact it names. An id or a name is a
/// unique key; a role that names several artifacts is refused, listing them, so
/// the caller can disambiguate.
pub fn select_artifact(artifacts: &[Artifact], sel: &ArtifactSelector) -> (r: Result<usize, HavenError>)
    ensures
        ({
            let idx = matches_upto(artifacts@, *sel, artifacts@.len() as int);
            match r {
                Ok(i) => idx.len() == 1 && idx[0] == i,
                Err(e) => if idx.len() == 0 {
                    not_found_with(e, unmatched_msg(*sel))
                } else {
                    idx.len() > 1 && invalid_with(e, ambiguous_msg(artifacts@, *sel, idx))
                },
            }
        }),
{
    let mut idx: Vec<usize> = Vec::new();
    let mut labels: Vec<Vec<char>> = Vec::new();
    let mut i: usize = 0;
    while i < artifacts.len()
        invariant
            i <= artifacts.len(),
            idx@.map_values(|k: usize| k as int) == matches_upto(artifacts@, *sel, i as int),
            word_views(labels@) == labels_at(artifacts@, matches_upto(artifacts@, *sel, i as int)),
            forall|k: int| 0 <= k < idx@.len() ==> idx@[k] < i,
        decreases artifacts.len() - i,
    {
        let ghost m = matches_upto(artifacts@, *sel, i as int);
        let ghost before_idx = idx@;
        let ghost before_labels = labels@;
        if selects_exec(&artifacts[i], sel) {
            idx.push(i);
            let l = label_chars(&artifacts[i]);
            labels.push(l);
            proof {
                let m2 = matches_upto(artifacts@, *sel, i + 1);
                assert(m2 == m.push(i as int));
                assert(idx@.map_values(|k: usize| k as int) =~= m2);
                assert(labels@ == before_labels.push(l));
                let lv = word_views(labels@);
                let mv = labels_at(artifacts@, m2);
                let bv = word_views(before_labels);
                let pv = labels_at(artifacts@, m);
                assert(bv == pv);
                assert(bv.len() == before_labels.len());
                assert(pv.len() == m.len());
                assert(m2.len() == m.len() + 1);
                assert(lv.len() == labels@.len());
                assert(mv.len() == m2.len());
                assert(lv.len() == mv.len());
                assert forall|k: int| 0 <= k < lv.len() implies #[trigger] lv[k] == mv[k] by {
                    if k < before_labels.len() {
                        assert(labels@[k] == before_labels[k]);
                        assert(bv[k] == pv[k]);
                        assert(m2[k] == m[k]);
                    } else {
                        assert(m2[k] == i as int);
                    }
                }
                assert(lv =~= mv);
            }
        } else {
            assert(matches_upto(artifacts@, *sel, i + 1) =~= m);
        }
        i = i + 1;
    }
    let ghost all = matches_upto(artifacts@, *sel, artifacts@.len() as int);
    if idx.len() == 1 {
        assert(all[0] == idx@[0] as int);
        return Ok(idx[0]);
    }
    let s = selector_string(sel);
    if idx.len() == 0 {
        let mut m = string_of("no artifact matched ");
        push_str(&mut m, s.as_str());
        return Err(HavenError::NotFound(m));
    }
    let mut m = string_of("selector ");
    push_str(&mut m, s.as_str());
    push_str(&mut m, " is ambiguous — matched ");
    push_usize(&mut m, idx.len());
    push_str(&mut m, " artifacts; disambiguate by --name or --id (");
    push_joined(&mut m, &labels, ", ");
    push_str(&mut m, ")");
    proof {
        assert(labels@.map_values(|w: Vec<char>| w@) =~= word_views(labels@));
        assert(all.len() == idx@.len());
        assert(m@ =~= ambiguous_msg(artifacts@, *sel, all));
    }
    Err(HavenError::Invalid(m))
}

// ---- renaming ---------------------------------------------------------------

/// Everything before the last `/` of a path (empty when there is none).
pub open spec fn dirname_spec(p: Seq<char>) -> Seq<char> {
    p.subrange(0, p.len() - basename_spec(p).len() - (if basename_spec(p).len() < p.len() {
        1int
    } else {
        0int
    }))
}

/// The path a rename moves a file to: the same directory, the new name.
pub open spec fn renamed_path(rel: Seq<char>, new_name: Seq<char>) -> Seq<char> {
    if dirname_spec(rel).len() == 0 {
        new_name
    } else {
        dirname_spec(rel) + "/"@ + new_name
    }
}

/// The refusal of a rename onto an occupied path.
pub open spec fn rename_collision_msg(new_rel: Seq<char>, node_ref: Seq<char>) -> Seq<char> {
    "an artifact already exists at "@ + debug_quoted_spec(new_rel) + " on "@ + debug_quoted_spec(
        node_ref,
    ) + "; rename or remove it first"@
}

proof fn lemma_basename_suffix(p: Seq<char>)
    ensures
        basename_spec(p).len() <= p.len(),
        basename_spec(p) == p.subrange(p.len() - basename_spec(p).len(), p.len() as int),
        basename_spec(p).len() < p.len() ==> p[p.len() - basename_spec(p).len() - 1] == '/',
    decreases p.len(),
{
    if p.len() > 0 && p.last() != '/' {
        lemma_basename_suffix(p.drop_last());
        assert(basename_spec(p) =~= p.subrange(p.len() - basename_spec(p).len(), p.len() as int));
    }
}

fn dirname(p: &str) -> (r: String)
    ensures
        r@ == dirname_spec(p@),
{
    let v = chars_of(p);
    let b = basename(p);
    proof {
        lemma_basename_suffix(p@);
    }
    let blen = chars_of(b.as_str()).len();
    let cut = if blen < v.len() {
        v.len() - blen - 1
    } else {
        v.len() - blen
    };
    string_from_range(&v, 0, cut)
}

/// Plan a rename of the artifact at index `target` to `new_name`: the new path
/// (same directory), or `None` when it is already there. The name must be a
/// plain file name, the artifact must have a path, and the new path must not
/// be occupied — checked in that order.
pub fn plan_rename(artifacts: &[Artifact], target: usize, new_name: &str, node_ref: &str) -> (r: Result<
    Option<String>,
    HavenError,
>)
    requires
        target < artifacts@.len(),
    ensures
        ({
            let a = artifacts@[target as int];
            match r {
                Ok(None) => plain_name(new_name@) && (path_of(a) matches Some(rel) && renamed_path(rel, new_name@) == rel),
                Ok(Some(n)) => plain_name(new_name@) && (path_of(a) matches Some(rel) && n@ == renamed_path(rel, new_name@)
                    && n@ != rel) && forall|j: int| 0 <= j < artifacts@.len() ==> path_of(#[trigger] artifacts@[j]) != Some(n@),
                Err(e) => if !plain_name(new_name@) {
                    invalid_with(e, "artifact file name "@ + debug_quoted_spec(new_name@) + " must be a plain file name"@)
                } else if a.path is None {
                    invalid_with(e, "only a file artifact (with a path) can be renamed"@)
                } else {
                    let n = renamed_path(path_of(a).unwrap(), new_name@);
                    n != path_of(a).unwrap() && (exists|j: int| 0 <= j < artifacts@.len() && path_of(#[trigger] artifacts@[j]) == Some(n))
                        && invalid_with(e, rename_collision_msg(n, node_ref@))
                },
            }
        }),
{
    validate_plain_name(new_name)?;
    let rel = match &artifacts[target].path {
        Some(p) => p,
        None => return Err(HavenError::Invalid(string_of("only a file artifact (with a path) can be renamed"))),
    };
    let dir = dirname(rel.as_str());
    let new_rel = if chars_of(dir.as_str()).len() == 0 {
        string_of(new_name)
    } else {
        let mut n = dir.clone();
        push_str(&mut n, "/");
        push_str(&mut n, new_name);
        n
    };
    assert(new_rel@ =~= renamed_path(rel@, new_name@));
    if str_eq(new_rel.as_str(), rel.as_str()) {
        return Ok(None);
    }
    match find_by_path(artifacts, new_rel.as_str()) {
        Some(_) => {
            let mut m = string_of("an artifact already exists at ");
            let q = debug_quoted(new_rel.as_str());
            push_str(&mut m, q.as_str());
            push_str(&mut m, " on ");
            let q2 = debug_quoted(node_ref);
            push_str(&mut m, q2.as_str());
            push_str(&mut m, "; rename or remove it first");
            Err(HavenError::Invalid(m))
        },
        None => Ok(Some(new_rel)),
    }
}

// ---- scratch notes ------------------------------------------------------------

/// Where a scratch note on `node_ref` written on the day `(y, m, d)` goes,
/// relative to the project directory: one dated file per day under the item's
/// `notes/`.
pub open spec fn note_path_spec(node_ref: Seq<char>, y: int, m: int, d: int) -> Seq<char> {
    "items/"@ + node_ref + "/notes/"@ + ymd_spec(y, m, d) + ".md"@
}

/// The dated notes file of an item for the day `ymd`.
pub fn note_path(node_ref: &str, ymd: (i64, u32, u32)) -> (r: String)
    ensures
        r@ == note_path_spec(node_ref@, ymd.0 as int, ymd.1 as int, ymd.2 as int),
{
    let mut r = string_of("items/");
    push_str(&mut r, node_ref);
    push_str(&mut r, "/notes/");
    let day = ymd_string(ymd);
    push_str(&mut r, day.as_str());
    push_str(&mut r, ".md");
    r
}

/// The line a note appends to the day's file: a list item, newline-terminated.
pub fn note_line(text: &str) -> (r: String)
    ensures
        r@ == "- "@ + text@ + "\n"@,
{
    let mut r = string_of("- ");
    push_str(&mut r, text);
    push_str(&mut r, "\n");
    r
}

} // verus!
