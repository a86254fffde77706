//! Content-layer rules: plain artifact file names, the context-pack pointer of a
//! leaf, relocation tombstones, artifact selection and renaming, the backlog
//! projection's lines, and the typed cross-store links (`xref`) carried in an
//! artifact's metadata.

use vstd::prelude::*;
use crate::error::{invalid_with, not_found_with, HavenError};
use crate::item::{blank, opt_string_view};
use crate::json::{json_text, Json};
use crate::model::{
    artifact_role_name, owner_kind_name, rollup_state_name, status_name, xref_relation_name,
    Artifact, ArtifactRole, ArtifactSelector, ContextPack, IntegrityIssue, IntegrityKind, Item,
    RollupState, Xref, XrefRelation,
};
use crate::text::{
    chars_of, contains_char, debug_quoted, debug_quoted_spec, int_decimal, nat_digits, push_char,
    push_i64, push_str, push_usize, starts_with_spec, str_eq, string_from_range, string_of,
    strings_view, to_uppercase, to_uppercase_spec, seq_lt, str_lt,
};
use crate::words::{push_joined, trim_start_by, trim_start_len, ws_pred, join};

verus! {

/// The file name of a context-pack artifact: the contract between the skill
/// that writes packs and the pointer derivation that reads them.
pub const CONTEXT_PACK_ARTIFACT: &'static str = "context-pack.md";

// ---- file names ---------------------------------------------------------------

/// A single plain path component: non-empty, no `/` or `\`, not `..`.
pub open spec fn plain_name(name: Seq<char>) -> bool {
    name.len() > 0 && !name.contains('/') && !name.contains('\\') && name != ".."@
}

/// A client-supplied artifact file name must be a single plain component (no
/// separators, not `..`), so it can never escape the item directory.
pub fn validate_plain_name(name: &str) -> (r: Result<(), HavenError>)
    ensures
        r is Ok <==> plain_name(name@),
        r matches Err(e) ==> invalid_with(
            e,
            "artifact file name "@ + debug_quoted_spec(name@) + " must be a plain file name"@,
        ),
{
    let v = chars_of(name);
    if v.len() == 0 || contains_char(name, '/') || contains_char(name, '\\') || str_eq(name, "..") {
        let mut m = string_of("artifact file name ");
        let q = debug_quoted(name);
        push_str(&mut m, q.as_str());
        push_str(&mut m, " must be a plain file name");
        return Err(HavenError::Invalid(m));
    }
    Ok(())
}

/// The last `/`-separated segment of a path (the whole path without a `/`).
pub open spec fn basename_spec(p: Seq<char>) -> Seq<char>
    decreases p.len(),
{
    if p.len() == 0 {
        p
    } else if p.last() == '/' {
        Seq::empty()
    } else {
        basename_spec(p.drop_last()).push(p.last())
    }
}

/// The last `/`-separated segment of a path.
pub fn basename(p: &str) -> (r: String)
    ensures
        r@ == basename_spec(p@),
{
    let v = chars_of(p);
    let mut k = v.len();
    proof {
        assert(v@.take(k as int) =~= v@);
        assert(basename_spec(v@) + v@.subrange(k as int, k as int) =~= basename_spec(v@));
    }
    while k > 0 && v[k - 1] != '/'
        invariant
            k <= v.len(),
            v@ == p@,
            basename_spec(p@) == basename_spec(v@.take(k as int)) + v@.subrange(k as int, v.len() as int),
        decreases k,
    {
        proof {
            assert(v@.take(k as int).drop_last() =~= v@.take(k - 1));
            assert(v@.take(k as int).last() == v@[k - 1]);
            assert(basename_spec(v@.take(k - 1)).push(v@[k - 1]) + v@.subrange(k as int, v.len() as int)
                =~= basename_spec(v@.take(k - 1)) + v@.subrange(k - 1, v.len() as int));
        }
        k = k - 1;
    }
    proof {
        if k > 0 {
            assert(v@.take(k as int).last() == '/');
        } else {
            assert(v@.take(0).len() == 0);
        }
        assert(Seq::<char>::empty() + v@.subrange(k as int, v.len() as int) =~= v@.subrange(k as int, v.len() as int));
    }
    string_from_range(&v, k, v.len())
}

// ---- haven refs and xref keys ---------------------------------------------------

/// `target` is `<prefix>-<digits>`, at least one digit.
pub open spec fn haven_ref_spec(prefix: Seq<char>, target: Seq<char>) -> bool {
    starts_with_spec(target, prefix + seq!['-']) && target.len() > prefix.len() + 1
        && forall|i: int| prefix.len() + 1 <= i < target.len() ==> crate::text::is_ascii_digit_spec(#[trigger] target[i])
}

/// Whether `target` is shaped like a Haven ref of project `prefix`
/// (`<prefix>-N`), so it is existence-checked rather than treated as an opaque
/// locator of another store.
pub fn is_haven_ref(prefix: &str, target: &str) -> (r: bool)
    ensures
        r == haven_ref_spec(prefix@, target@),
{
    let mut p = string_of(prefix);
    push_char(&mut p, '-');
    assert(p@ =~= prefix@ + seq!['-']);
    if !crate::text::starts_with(target, p.as_str()) {
        return false;
    }
    let v = chars_of(target);
    let start = chars_of(p.as_str()).len();
    if v.len() <= start {
        return false;
    }
    let mut i = start;
    while i < v.len()
        invariant
            start == prefix@.len() + 1,
            start <= i <= v.len(),
            v@ == target@,
            forall|j: int| start <= j < i ==> crate::text::is_ascii_digit_spec(#[trigger] v@[j]),
        decreases v.len() - i,
    {
        if !('0' <= v[i] && v[i] <= '9') {
            assert(!crate::text::is_ascii_digit_spec(target@[i as int]));
            return false;
        }
        i = i + 1;
    }
    true
}

/// A key component with surrounding whitespace and trailing `/`s removed.
pub open spec fn normalize_key_spec(s: Seq<char>) -> Seq<char> {
    crate::words::trim_end_by(crate::words::trim_spec(s), |c: char| c == '/')
}

/// `str::trim`: `s` without leading and trailing whitespace.
pub fn trim(s: &str) -> (r: String)
    ensures
        r@ == crate::words::trim_spec(s@),
{
    let v = chars_of(s);
    let e = crate::words::trim_end_len(&v, false);
    let cut = string_from_range(&v, 0, e);
    let cv = chars_of(cut.as_str());
    let b = trim_start_len(&cv);
    proof {
        assert(v@.take(e as int) =~= v@.subrange(0, e as int));
        assert(cv@.skip(b as int) =~= cv@.subrange(b as int, cv.len() as int));
    }
    string_from_range(&cv, b, cv.len())
}

/// `s` without its trailing `/`s.
fn trim_trailing_slashes(s: &str) -> (r: String)
    ensures
        r@ == crate::words::trim_end_by(s@, |c: char| c == '/'),
{
    let tv = chars_of(s);
    let mut n = tv.len();
    assert(tv@.take(n as int) =~= tv@);
    while n > 0 && tv[n - 1] == '/'
        invariant
            n <= tv.len(),
            tv@ == s@,
            crate::words::trim_end_by(tv@.take(n as int), |c: char| c == '/') == crate::words::trim_end_by(tv@, |c: char| c == '/'),
        decreases n,
    {
        assert(tv@.take(n as int).drop_last() =~= tv@.take(n - 1));
        n = n - 1;
    }
    assert(tv@.take(n as int) =~= tv@.subrange(0, n as int));
    string_from_range(&tv, 0, n)
}

/// Normalize a `(store, target)` key component for the canonical-conflict
/// grouping: trim surrounding whitespace, then trailing slashes, so `servo:X`
/// and `servo:X/` collide while distinct stores and targets never do.
pub fn normalize_key(s: &str) -> (r: String)
    ensures
        r@ == normalize_key_spec(s@),
{
    let t = trim(s);
    trim_trailing_slashes(t.as_str())
}

} // verus!

verus! {

// ---- context packs and tombstones -------------------------------------------------

/// The pointer a leaf advertises from the live containers it belongs to that
/// carry a context pack (deduplicated by container, sorted): none gives
/// nothing, exactly one gives the pack, more than one gives a clash listing them.
pub fn context_pack_from(containers: Vec<String>) -> (r: (Option<ContextPack>, Option<Vec<String>>))
    ensures
        containers.len() == 0 ==> r.0 is None && r.1 is None,
        containers.len() == 1 ==> r.1 is None && (r.0 matches Some(p) && p.container == containers@[0]
            && p.artifact@ == "context-pack.md"@),
        containers.len() > 1 ==> r.0 is None && r.1 == Some(containers),
{
    if containers.len() == 0 {
        (None, None)
    } else if containers.len() == 1 {
        let mut containers = containers;
        let c = containers.remove(0);
        (Some(ContextPack { container: c, artifact: string_of("context-pack.md") }), None)
    } else {
        (None, Some(containers))
    }
}

/// Content that opens (after leading whitespace, case-insensitively) with
/// `MOVED` or `RELOCATED`: a relocation tombstone left where a pack used to be.
pub open spec fn tombstone_spec(text: Seq<char>) -> bool {
    let head = to_uppercase_spec(trim_start_by(text, ws_pred()));
    starts_with_spec(head, "MOVED"@) || starts_with_spec(head, "RELOCATED"@)
}

/// Whether a context-pack file's content is a relocation tombstone.
pub fn is_relocation_tombstone(text: &str) -> (r: bool)
    ensures
        r == tombstone_spec(text@),
{
    let v = chars_of(text);
    let b = trim_start_len(&v);
    let rest = string_from_range(&v, b, v.len());
    proof {
        assert(v@.skip(b as int) =~= v@.subrange(b as int, v.len() as int));
    }
    let head = to_uppercase(rest.as_str());
    crate::text::starts_with(head.as_str(), "MOVED") || crate::text::starts_with(head.as_str(), "RELOCATED")
}

/// Whether a member's derived pointer leads into a tombstone container: its
/// pack's container, or any container of its clash, is one of `tombstones`.
pub open spec fn pointer_hits_spec(pack: Option<ContextPack>, clash: Option<Vec<String>>, tombstones: Seq<Seq<char>>) -> bool {
    match pack {
        Some(p) => tombstones.contains(p.container@),
        None => match clash {
            Some(list) => exists|i: int| 0 <= i < list@.len() && tombstones.contains(#[trigger] list@[i]@),
            None => false,
        },
    }
}

/// Whether a member's derived context pack resolves to a tombstone container.
pub fn pointer_hits(pack: &Option<ContextPack>, clash: &Option<Vec<String>>, tombstones: &Vec<String>) -> (r: bool)
    ensures
        r == pointer_hits_spec(*pack, *clash, strings_view(tombstones@)),
{
    if let Some(p) = pack {
        return crate::text::contains_str(tombstones, p.container.as_str());
    }
    if let Some(list) = clash {
        let mut i: usize = 0;
        while i < list.len()
            invariant
                i <= list.len(),
                *pack is None,
                *clash == Some(*list),
                forall|j: int| 0 <= j < i ==> !strings_view(tombstones@).contains(#[trigger] list@[j]@),
            decreases list.len() - i,
        {
            if crate::text::contains_str(tombstones, list[i].as_str()) {
                assert(strings_view(tombstones@).contains(list@[i as int]@));
                let ghost l = (*clash).unwrap();
                assert(l@ == list@);
                assert(exists|j: int| 0 <= j < l@.len() && strings_view(tombstones@).contains(#[trigger] l@[j]@));
                return true;
            }
            i = i + 1;
        }
        return false;
    }
    false
}

/// The finding for a container whose pack is a tombstone.
pub open spec fn tombstone_detail(node: Seq<char>) -> Seq<char> {
    node + " carries a context-pack.md whose content is a relocation tombstone, not a real pack — remove it via `haven artifact rm`"@
}

/// The finding for a member whose pointer leads into a tombstone.
pub open spec fn pointer_detail(node: Seq<char>) -> Seq<char> {
    node + " advertises a context_pack that resolves to a relocation tombstone"@
}

/// The finding for duplicate artifact rows at one path.
pub open spec fn duplicate_detail(node: Seq<char>, count: int, path: Seq<char>) -> Seq<char> {
    node + " has "@ + int_decimal(count) + " artifact rows for the same path "@ + path
}

/// The text of a tombstone-pack finding.
pub fn tombstone_message(node: &str) -> (r: String)
    ensures
        r@ == tombstone_detail(node@),
{
    let mut m = string_of(node);
    push_str(&mut m, " carries a context-pack.md whose content is a relocation tombstone, not a real pack — remove it via `haven artifact rm`");
    m
}

/// The text of a pointer-to-tombstone finding.
pub fn pointer_message(node: &str) -> (r: String)
    ensures
        r@ == pointer_detail(node@),
{
    let mut m = string_of(node);
    push_str(&mut m, " advertises a context_pack that resolves to a relocation tombstone");
    m
}

/// The text of a duplicate-rows finding.
pub fn duplicate_message(node: &str, count: i64, path: &str) -> (r: String)
    ensures
        r@ == duplicate_detail(node@, count as int, path@),
{
    let mut m = string_of(node);
    push_str(&mut m, " has ");
    push_i64(&mut m, count);
    push_str(&mut m, " artifact rows for the same path ");
    push_str(&mut m, path);
    m
}

// ---- the context-pack integrity scan ----------------------------------------

/// A pack row read as a relocation tombstone: its content could be read and
/// opens with a relocation marker.
pub open spec fn tomb_row(p: (i64, String, Option<String>)) -> bool {
    p.2 matches Some(t) && tombstone_spec(t@)
}

/// Row `i` is the first tombstone row of its node ref (a container with two
/// tombstone rows is one tombstone).
pub open spec fn first_tomb(packs: Seq<(i64, String, Option<String>)>, i: int) -> bool {
    tomb_row(packs[i]) && forall|j: int| 0 <= j < i ==> !(tomb_row(#[trigger] packs[j]) && packs[j].1@ == packs[i].1@)
}

/// The tombstone containers among the first `n` pack rows, each once, in order.
pub open spec fn tombs_upto(packs: Seq<(i64, String, Option<String>)>, n: int) -> Seq<(i64, Seq<char>)>
    decreases n,
{
    if n <= 0 {
        Seq::empty()
    } else {
        tombs_upto(packs, n - 1) + (if first_tomb(packs, n - 1) {
            seq![(packs[n - 1].0, packs[n - 1].1@)]
        } else {
            Seq::empty()
        })
    }
}

/// `issues` reports, in order, one finding of `kind` per entry of `nodes`, with
/// the detail `detail(node)`.
pub open spec fn reports(issues: Seq<IntegrityIssue>, kind: IntegrityKind, nodes: Seq<Seq<char>>, detail: spec_fn(Seq<char>) -> Seq<char>) -> bool {
    &&& issues.len() == nodes.len()
    &&& forall|k: int| 0 <= k < issues.len() ==> (#[trigger] issues[k]).kind == kind && issues[k].node@ == nodes[k]
        && issues[k].detail@ == detail(nodes[k])
}

proof fn lemma_tombs_refs(packs: Seq<(i64, String, Option<String>)>, n: int, x: Seq<char>)
    requires
        0 <= n <= packs.len(),
    ensures
        tombs_upto(packs, n).map_values(|t: (i64, Seq<char>)| t.1).contains(x) <==> exists|j: int|
            0 <= j < n && tomb_row(#[trigger] packs[j]) && packs[j].1@ == x,
    decreases n,
{
    if n > 0 {
        lemma_tombs_refs(packs, n - 1, x);
        let pre = tombs_upto(packs, n - 1);
        let all = tombs_upto(packs, n);
        let pm = pre.map_values(|t: (i64, Seq<char>)| t.1);
        let am = all.map_values(|t: (i64, Seq<char>)| t.1);
        if pm.contains(x) {
            let k = choose|k: int| 0 <= k < pm.len() && pm[k] == x;
            assert(am[k] == x);
        }
        if am.contains(x) {
            let k = choose|k: int| 0 <= k < am.len() && am[k] == x;
            if k < pm.len() {
                assert(pm[k] == x);
            } else {
                assert(tomb_row(packs[n - 1]) && packs[n - 1].1@ == x);
            }
        }
        if exists|j: int| 0 <= j < n && tomb_row(#[trigger] packs[j]) && packs[j].1@ == x {
            let j = choose|j: int| 0 <= j < n && tomb_row(#[trigger] packs[j]) && packs[j].1@ == x;
            if j < n - 1 {
            } else if first_tomb(packs, n - 1) {
                assert(am[pm.len() as int] == x);
            } else {
                let j2 = choose|j2: int| 0 <= j2 < n - 1 && tomb_row(#[trigger] packs[j2]) && packs[j2].1@ == packs[n - 1].1@;
                assert(exists|j: int| 0 <= j < n - 1 && tomb_row(#[trigger] packs[j]) && packs[j].1@ == x);
            }
        }
    }
}

/// The tombstone step of the context-pack scan over one project's pack rows
/// `(node id, node ref, content)` (the content is `None` when there is no
/// path, the path escapes the project tree, or the file cannot be read): each
/// container whose pack is a relocation tombstone, once, with its finding.
pub fn tombstone_findings(packs: &[(i64, String, Option<String>)]) -> (r: (Vec<(i64, String)>, Vec<IntegrityIssue>))
    ensures
        r.0@.map_values(|t: (i64, String)| (t.0, t.1@)) == tombs_upto(packs@, packs@.len() as int),
        reports(
            r.1@,
            IntegrityKind::TombstonePack,
            tombs_upto(packs@, packs@.len() as int).map_values(|t: (i64, Seq<char>)| t.1),
            |n: Seq<char>| tombstone_detail(n),
        ),
{
    let mut nodes: Vec<(i64, String)> = Vec::new();
    let mut refs: Vec<String> = Vec::new();
    let mut issues: Vec<IntegrityIssue> = Vec::new();
    let mut i: usize = 0;
    while i < packs.len()
        invariant
            i <= packs.len(),
            nodes@.map_values(|t: (i64, String)| (t.0, t.1@)) == tombs_upto(packs@, i as int),
            strings_view(refs@) == tombs_upto(packs@, i as int).map_values(|t: (i64, Seq<char>)| t.1),
            reports(
                issues@,
                IntegrityKind::TombstonePack,
                tombs_upto(packs@, i as int).map_values(|t: (i64, Seq<char>)| t.1),
                |n: Seq<char>| tombstone_detail(n),
            ),
        decreases packs.len() - i,
    {
        let ghost before_nodes = nodes@;
        let ghost before_refs = refs@;
        let ghost before_issues = issues@;
        let ghost tb = tombs_upto(packs@, i as int);
        proof {
            lemma_tombs_refs(packs@, i as int, packs@[i as int].1@);
        }
        let (id, node_ref, text) = (packs[i].0, &packs[i].1, &packs[i].2);
        let is_tomb = match text {
            Some(t) => is_relocation_tombstone(t.as_str()),
            None => false,
        };
        assert(is_tomb == tomb_row(packs@[i as int]));
        if is_tomb && !crate::text::contains_str(&refs, node_ref.as_str()) {
            proof {
                assert forall|j: int| 0 <= j < i implies !(tomb_row(#[trigger] packs@[j]) && packs@[j].1@ == packs@[i as int].1@) by {
                    if tomb_row(packs@[j]) && packs@[j].1@ == packs@[i as int].1@ {
                        assert(exists|j2: int| 0 <= j2 < i && tomb_row(#[trigger] packs@[j2]) && packs@[j2].1@ == packs@[i as int].1@);
                    }
                }
                assert(first_tomb(packs@, i as int));
            }
            nodes.push((id, node_ref.clone()));
            let rc = node_ref.clone();
            assert(rc@ == node_ref@);
            refs.push(rc);
            let detail = tombstone_message(node_ref.as_str());
            issues.push(IntegrityIssue { kind: IntegrityKind::TombstonePack, node: node_ref.clone(), detail });
            proof {
                let t = tombs_upto(packs@, i + 1);
                assert(t == tb.push((id, node_ref@)));
                assert(nodes@.map_values(|t: (i64, String)| (t.0, t.1@)) =~= t);
                assert forall|k: int| 0 <= k < refs@.len() implies #[trigger] strings_view(refs@)[k]
                    == t.map_values(|t: (i64, Seq<char>)| t.1)[k] by {
                    if k < before_refs.len() {
                        assert(refs@[k] == before_refs[k]);
                        assert(strings_view(before_refs)[k] == tb.map_values(|t: (i64, Seq<char>)| t.1)[k]);
                    }
                }
                assert(strings_view(refs@) =~= t.map_values(|t: (i64, Seq<char>)| t.1));
                let ns = t.map_values(|t: (i64, Seq<char>)| t.1);
                assert forall|k: int| 0 <= k < issues@.len() implies (#[trigger] issues@[k]).kind == IntegrityKind::TombstonePack
                    && issues@[k].node@ == ns[k] && issues@[k].detail@ == tombstone_detail(ns[k]) by {
                    if k < before_issues.len() {
                        assert(issues@[k] == before_issues[k]);
                    }
                }
            }
        } else {
            proof {
                if is_tomb {
                    let s = strings_view(refs@);
                    assert(s.contains(node_ref@));
                    assert(!first_tomb(packs@, i as int));
                }
                assert(tombs_upto(packs@, i + 1) =~= tb);
            }
        }
        i = i + 1;
    }
    (nodes, issues)
}

/// Entry `i` is the first with its member id.
pub open spec fn first_member(members: Seq<(i64, String, Option<ContextPack>, Option<Vec<String>>)>, i: int) -> bool {
    forall|j: int| 0 <= j < i ==> (#[trigger] members[j]).0 != members[i].0
}

/// The members among the first `n` entries whose derived pack leads into a
/// tombstone, each member once, in order.
pub open spec fn pointer_hits_upto(
    members: Seq<(i64, String, Option<ContextPack>, Option<Vec<String>>)>,
    tombstones: Seq<Seq<char>>,
    n: int,
) -> Seq<Seq<char>>
    decreases n,
{
    if n <= 0 {
        Seq::empty()
    } else {
        pointer_hits_upto(members, tombstones, n - 1) + (if first_member(members, n - 1) && pointer_hits_spec(
            members[n - 1].2,
            members[n - 1].3,
            tombstones,
        ) {
            seq![members[n - 1].1@]
        } else {
            Seq::empty()
        })
    }
}

fn contains_id(v: &Vec<i64>, id: i64) -> (r: bool)
    ensures
        r == v@.contains(id),
{
    let mut i: usize = 0;
    while i < v.len()
        invariant
            i <= v.len(),
            forall|j: int| 0 <= j < i ==> v@[j] != id,
        decreases v.len() - i,
    {
        if v[i] == id {
            return true;
        }
        i += 1;
    }
    false
}

/// The pointer step of the context-pack scan: over the live members of the
/// tombstone containers `(member id, member ref, derived pack, pack clash)`,
/// a finding for each member whose pointer resolves to a tombstone, a member
/// under several tombstones reported once.
pub fn pointer_findings(
    members: &[(i64, String, Option<ContextPack>, Option<Vec<String>>)],
    tombstones: &Vec<String>,
) -> (r: Vec<IntegrityIssue>)
    ensures
        reports(
            r@,
            IntegrityKind::PointerToTombstone,
            pointer_hits_upto(members@, strings_view(tombstones@), members@.len() as int),
            |n: Seq<char>| pointer_detail(n),
        ),
{
    let ghost tv = strings_view(tombstones@);
    let mut flagged: Vec<i64> = Vec::new();
    let mut issues: Vec<IntegrityIssue> = Vec::new();
    let mut i: usize = 0;
    while i < members.len()
        invariant
            i <= members.len(),
            tv == strings_view(tombstones@),
            forall|id: i64| #[trigger] flagged@.contains(id) <==> exists|j: int| 0 <= j < i && (#[trigger] members@[j]).0 == id,
            reports(
                issues@,
                IntegrityKind::PointerToTombstone,
                pointer_hits_upto(members@, tv, i as int),
                |n: Seq<char>| pointer_detail(n),
            ),
        decreases members.len() - i,
    {
        let ghost before_issues = issues@;
        let ghost ph = pointer_hits_upto(members@, tv, i as int);
        let m = &members[i];
        let seen = contains_id(&flagged, m.0);
        proof {
            if !seen {
                assert forall|j: int| 0 <= j < i implies (#[trigger] members@[j]).0 != members@[i as int].0 by {
                    if members@[j].0 == members@[i as int].0 {
                        assert(flagged@.contains(members@[i as int].0));
                    }
                }
                assert(first_member(members@, i as int));
            } else {
                let j = choose|j: int| 0 <= j < i && (#[trigger] members@[j]).0 == members@[i as int].0;
                assert(!first_member(members@, i as int));
            }
        }
        let ghost before_flagged = flagged@;
        if !seen {
            flagged.push(m.0);
        }
        proof {
            assert forall|id: i64| #[trigger] flagged@.contains(id) <==> exists|j: int| 0 <= j < i + 1 && (#[trigger] members@[j]).0 == id by {
                if flagged@.contains(id) {
                    if before_flagged.contains(id) {
                        let j = choose|j: int| 0 <= j < i && (#[trigger] members@[j]).0 == id;
                    } else {
                        assert(members@[i as int].0 == id);
                    }
                }
                if exists|j: int| 0 <= j < i + 1 && (#[trigger] members@[j]).0 == id {
                    let j = choose|j: int| 0 <= j < i + 1 && (#[trigger] members@[j]).0 == id;
                    if j < i {
                        assert(before_flagged.contains(id));
                        let k = choose|k: int| 0 <= k < before_flagged.len() && before_flagged[k] == id;
                        assert(flagged@[k] == id);
                    } else if seen {
                        let j2 = choose|j2: int| 0 <= j2 < i && (#[trigger] members@[j2]).0 == members@[i as int].0;
                        assert(before_flagged.contains(id));
                        let k = choose|k: int| 0 <= k < before_flagged.len() && before_flagged[k] == id;
                        assert(flagged@[k] == id);
                    } else {
                        assert(flagged@[before_flagged.len() as int] == id);
                    }
                }
            }
        }
        if !seen && pointer_hits(&m.2, &m.3, tombstones) {
            let detail = pointer_message(m.1.as_str());
            issues.push(IntegrityIssue { kind: IntegrityKind::PointerToTombstone, node: m.1.clone(), detail });
            proof {
                let t = pointer_hits_upto(members@, tv, i + 1);
                assert(t == ph.push(members@[i as int].1@));
                assert forall|k: int| 0 <= k < issues@.len() implies (#[trigger] issues@[k]).kind == IntegrityKind::PointerToTombstone
                    && issues@[k].node@ == t[k] && issues@[k].detail@ == pointer_detail(t[k]) by {
                    if k < before_issues.len() {
                        assert(issues@[k] == before_issues[k]);
                    }
                }
            }
        } else {
            assert(pointer_hits_upto(members@, tv, i + 1) =~= ph);
        }
        i = i + 1;
    }
    issues
}

/// The duplicate-rows step of the context-pack scan: one finding per `(node
/// ref, path, row count)` group with more than one row, in order.
pub fn duplicate_findings(dups: &[(String, String, i64)]) -> (r: Vec<IntegrityIssue>)
    ensures
        r@.len() == dups@.len(),
        forall|k: int|
            0 <= k < r@.len() ==> (#[trigger] r@[k]).kind == IntegrityKind::DuplicateArtifactRow && r@[k].node@
                == dups@[k].0@ && r@[k].detail@ == duplicate_detail(dups@[k].0@, dups@[k].2 as int, dups@[k].1@),
{
    let mut issues: Vec<IntegrityIssue> = Vec::new();
    let mut i: usize = 0;
    while i < dups.len()
        invariant
            i <= dups.len(),
            issues@.len() == i,
            forall|k: int|
                0 <= k < i ==> (#[trigger] issues@[k]).kind == IntegrityKind::DuplicateArtifactRow && issues@[k].node@
                    == dups@[k].0@ && issues@[k].detail@ == duplicate_detail(dups@[k].0@, dups@[k].2 as int, dups@[k].1@),
        decreases dups.len() - i,
    {
        let (node, path, count) = (&dups[i].0, &dups[i].1, dups[i].2);
        let detail = duplicate_message(node.as_str(), count, path.as_str());
        issues.push(IntegrityIssue { kind: IntegrityKind::DuplicateArtifactRow, node: node.clone(), detail });
        i = i + 1;
    }
    issues
}

// ---- the backlog projection -------------------------------------------------------

/// One backlog line: ref, priority band, title, status and owner, what blocks
/// it, and a container's rollup (marked when live floaters remain beneath it).
pub open spec fn backlog_line_spec(item: Item, depends_on: Seq<Seq<char>>, rollup: Option<(RollupState, bool)>) -> Seq<char> {
    "- `"@ + item.reference@ + "`"@ + (match item.priority {
        Some(p) => " P"@ + int_decimal(p as int),
        None => Seq::empty(),
    }) + " "@ + item.title@ + " ("@ + status_name(item.status) + (match item.owner_kind {
        Some(o) => ", "@ + owner_kind_name(o),
        None => Seq::empty(),
    }) + ")"@ + (if depends_on.len() == 0 {
        Seq::empty()
    } else {
        " — blocked by: "@ + join(depends_on, ", "@)
    }) + (match rollup {
        Some((state, uncommitted)) => " [rollup: "@ + rollup_state_name(state) + (if uncommitted {
            " +uncommitted"@
        } else {
            Seq::empty()
        }) + "]"@,
        None => Seq::empty(),
    }) + "\n"@
}

/// The head of a backlog line: ref, priority band, title, status and owner.
pub open spec fn backlog_head(item: Item) -> Seq<char> {
    "- `"@ + item.reference@ + "`"@ + (match item.priority {
        Some(p) => " P"@ + int_decimal(p as int),
        None => Seq::empty(),
    }) + " "@ + item.title@ + " ("@ + status_name(item.status) + (match item.owner_kind {
        Some(o) => ", "@ + owner_kind_name(o),
        None => Seq::empty(),
    }) + ")"@
}

/// What blocks an item, when anything does.
pub open spec fn backlog_blocked(depends_on: Seq<Seq<char>>) -> Seq<char> {
    if depends_on.len() == 0 {
        Seq::empty()
    } else {
        " — blocked by: "@ + join(depends_on, ", "@)
    }
}

/// A container's rollup marker.
pub open spec fn backlog_rollup(rollup: Option<(RollupState, bool)>) -> Seq<char> {
    match rollup {
        Some((state, uncommitted)) => " [rollup: "@ + rollup_state_name(state) + (if uncommitted {
            " +uncommitted"@
        } else {
            Seq::empty()
        }) + "]"@,
        None => Seq::empty(),
    }
}

proof fn lemma_backlog_line_parts(item: Item, depends_on: Seq<Seq<char>>, rollup: Option<(RollupState, bool)>)
    ensures
        backlog_line_spec(item, depends_on, rollup) == backlog_head(item) + backlog_blocked(depends_on)
            + backlog_rollup(rollup) + "\n"@,
{
    assert(backlog_line_spec(item, depends_on, rollup) =~= backlog_head(item) + backlog_blocked(depends_on)
        + backlog_rollup(rollup) + "\n"@);
}

fn push_backlog_head(out: &mut String, item: &Item)
    ensures
        final(out)@ == old(out)@ + backlog_head(*item),
{
    push_str(out, "- `");
    push_str(out, item.reference.as_str());
    push_str(out, "`");
    match item.priority {
        Some(p) => {
            push_str(out, " P");
            push_i64(out, p);
        },
        None => {},
    }
    push_str(out, " ");
    push_str(out, item.title.as_str());
    push_str(out, " (");
    push_str(out, item.status.as_str());
    match item.owner_kind {
        Some(o) => {
            push_str(out, ", ");
            push_str(out, o.as_str());
        },
        None => {},
    }
    push_str(out, ")");
    assert(out@ =~= old(out)@ + backlog_head(*item));
}

fn push_backlog_blocked(out: &mut String, depends_on: &Vec<String>)
    ensures
        final(out)@ == old(out)@ + backlog_blocked(strings_view(depends_on@)),
{
    if depends_on.len() > 0 {
        push_str(out, " — blocked by: ");
        let mut ws: Vec<Vec<char>> = Vec::new();
        let mut i: usize = 0;
        while i < depends_on.len()
            invariant
                i <= depends_on.len(),
                ws@.map_values(|w: Vec<char>| w@) == strings_view(depends_on@).take(i as int),
            decreases depends_on.len() - i,
        {
            let ghost before = ws@;
            let w = chars_of(depends_on[i].as_str());
            ws.push(w);
            proof {
                assert(ws@ == before.push(w));
                assert(ws@.map_values(|w: Vec<char>| w@) =~= before.map_values(|w: Vec<char>| w@).push(depends_on@[i as int]@));
                assert(strings_view(depends_on@).take(i + 1) =~= strings_view(depends_on@).take(i as int).push(depends_on@[i as int]@));
            }
            i = i + 1;
        }
        assert(strings_view(depends_on@).take(depends_on.len() as int) =~= strings_view(depends_on@));
        let ghost mid = out@;
        push_joined(out, &ws, ", ");
        assert(out@ =~= old(out)@ + backlog_blocked(strings_view(depends_on@)));
    } else {
        assert(out@ =~= old(out)@ + backlog_blocked(strings_view(depends_on@)));
    }
}

/// Render one backlog line for `item`, given the refs it depends on and, for a
/// container, its rollup and whether uncommitted descendants remain.
pub fn backlog_line(item: &Item, depends_on: &Vec<String>, rollup: Option<(RollupState, bool)>) -> (r: String)
    ensures
        r@ == backlog_line_spec(*item, strings_view(depends_on@), rollup),
{
    let mut out = String::new();
    push_backlog_head(&mut out, item);
    push_backlog_blocked(&mut out, depends_on);
    match rollup {
        Some((state, uncommitted)) => {
            push_str(&mut out, " [rollup: ");
            push_str(&mut out, state.as_str());
            if uncommitted {
                push_str(&mut out, " +uncommitted");
            }
            push_str(&mut out, "]");
        },
        None => {},
    }
    push_str(&mut out, "\n");
    proof {
        lemma_backlog_line_parts(*item, strings_view(depends_on@), rollup);
        assert(out@ =~= backlog_head(*item) + backlog_blocked(strings_view(depends_on@)) + backlog_rollup(rollup) + "\n"@);
    }
    out
}

} // verus!

verus! {

// ---- xref metadata ----------------------------------------------------------------

/// A JSON value that names an xref relation: a string equal to one of the names.
pub open spec fn relation_of(v: Json) -> Option<XrefRelation> {
    match v {
        Json::Str(s) => if exists|x: XrefRelation| xref_relation_name(x) == s@ {
            Some(choose|x: XrefRelation| xref_relation_name(x) == s@)
        } else {
            None
        },
        _ => None,
    }
}

/// The string a JSON value holds, if it is a string.
pub open spec fn as_str_spec(v: Option<Json>) -> Option<Seq<char>> {
    match v {
        Some(Json::Str(s)) => Some(s@),
        _ => None,
    }
}

/// `metadata.xref[i]`, the prefix of every refusal about entry `i`.
pub open spec fn entry_prefix(i: int) -> Seq<char> {
    "metadata.xref["@ + nat_digits(i as nat) + "]"@
}

/// The first refusal of xref entry `i`, in check order: not an object; no
/// `relation`; a relation that is not one of the names; no non-blank string
/// `target`; a `store` that is not a string; a `canonical` that is not a boolean.
pub open spec fn entry_error(e: Json, i: int) -> Option<Seq<char>> {
    let p = entry_prefix(i);
    if !(e is Object) {
        Some(p + " must be an object"@)
    } else if e.get_spec("relation"@) is None {
        Some(p + " missing required `relation`"@)
    } else if relation_of(e.get_spec("relation"@).unwrap()) is None {
        Some(
            p + " has unknown `relation` "@ + json_text(e.get_spec("relation"@).unwrap())
                + " — must be one of canonical-source|mirror|derived-from|discussed-in"@,
        )
    } else if !(as_str_spec(e.get_spec("target"@)) matches Some(t) && !blank(t)) {
        Some(p + " missing required non-empty `target`"@)
    } else if e.get_spec("store"@) matches Some(s) && !(s is Str) {
        Some(p + " `store` must be a string"@)
    } else if e.get_spec("canonical"@) matches Some(c) && !(c is Bool) {
        Some(p + " `canonical` must be a boolean"@)
    } else {
        None
    }
}

/// The first refusal among the first `n` entries.
pub open spec fn entries_error(entries: Seq<Json>, n: int) -> Option<Seq<char>>
    decreases n,
{
    if n <= 0 {
        None
    } else {
        match entries_error(entries, n - 1) {
            Some(m) => Some(m),
            None => entry_error(entries[n - 1], n - 1),
        }
    }
}

/// The refusal of a metadata value on the write path: not an object (nor
/// null); an `xref` that is not an array; else the first bad entry.
pub open spec fn metadata_error(meta: Json) -> Option<Seq<char>> {
    if meta is Null {
        None
    } else if !(meta is Object) {
        Some("artifact metadata must be a JSON object"@)
    } else {
        match meta.get_spec("xref"@) {
            None => None,
            Some(Json::Array(entries)) => entries_error(entries@, entries@.len() as int),
            Some(_) => Some("metadata.xref must be an array of xref objects"@),
        }
    }
}

proof fn lemma_relation_name_injective(a: XrefRelation, b: XrefRelation)
    requires
        xref_relation_name(a) == xref_relation_name(b),
    ensures
        a == b,
{
    reveal_strlit("canonical-source");
    reveal_strlit("mirror");
    reveal_strlit("derived-from");
    reveal_strlit("discussed-in");
    lemma_relation_fingerprint(a);
    lemma_relation_fingerprint(b);
}

spec fn relation_fingerprint(x: XrefRelation) -> int {
    xref_relation_name(x).len() * 1000000 + (xref_relation_name(x)[0] as int) * 1000 + xref_relation_name(x)[1] as int
}

proof fn lemma_relation_fingerprint(x: XrefRelation)
    ensures
        relation_fingerprint(x) == match x {
            XrefRelation::CanonicalSource => 16099097int,
            XrefRelation::Mirror => 6109105int,
            XrefRelation::DerivedFrom => 12100101int,
            XrefRelation::DiscussedIn => 12100105int,
        },
{
    reveal_strlit("canonical-source");
    reveal_strlit("mirror");
    reveal_strlit("derived-from");
    reveal_strlit("discussed-in");
}

/// Parse a relation from a JSON value: a string naming one.
pub fn parse_relation(v: &Json) -> (r: Option<XrefRelation>)
    ensures
        r == relation_of(*v),
{
    match v {
        Json::Str(s) => match XrefRelation::parse(s.as_str()) {
            Ok(x) => {
                proof {
                    let c = choose|c: XrefRelation| xref_relation_name(c) == s@;
                    lemma_relation_name_injective(c, x);
                }
                Some(x)
            },
            Err(_) => None,
        },
        _ => None,
    }
}

fn entry_message(i: usize, tail: &str) -> (m: String)
    ensures
        m@ == entry_prefix(i as int) + tail@,
{
    let mut m = string_of("metadata.xref[");
    push_usize(&mut m, i);
    push_str(&mut m, "]");
    push_str(&mut m, tail);
    m
}

/// Check xref entry `i`.
fn check_entry(e: &Json, i: usize) -> (r: Result<(), HavenError>)
    ensures
        match r {
            Ok(()) => entry_error(*e, i as int) is None,
            Err(err) => entry_error(*e, i as int) matches Some(m) && invalid_with(err, m),
        },
{
    if !matches!(e, Json::Object(_)) {
        return Err(HavenError::Invalid(entry_message(i, " must be an object")));
    }
    let relation = match e.get("relation") {
        Some(r) => r,
        None => return Err(HavenError::Invalid(entry_message(i, " missing required `relation`"))),
    };
    if parse_relation(relation).is_none() {
        let mut m = entry_message(i, " has unknown `relation` ");
        crate::json::push_json(&mut m, relation);
        push_str(&mut m, " — must be one of canonical-source|mirror|derived-from|discussed-in");
        return Err(HavenError::Invalid(m));
    }
    let target_ok = match e.get("target") {
        Some(Json::Str(t)) => !crate::item::all_whitespace(t.as_str()),
        _ => false,
    };
    if !target_ok {
        return Err(HavenError::Invalid(entry_message(i, " missing required non-empty `target`")));
    }
    match e.get("store") {
        Some(Json::Str(_)) => {},
        Some(_) => return Err(HavenError::Invalid(entry_message(i, " `store` must be a string"))),
        None => {},
    }
    match e.get("canonical") {
        Some(Json::Bool(_)) => {},
        Some(_) => return Err(HavenError::Invalid(entry_message(i, " `canonical` must be a boolean"))),
        None => {},
    }
    Ok(())
}

/// Validate artifact metadata on the write path: it must be an object (or
/// null); an `xref` member, when present, must be an array of xref objects each
/// with a known `relation` and a non-blank `target`, a string `store` and a
/// boolean `canonical` when those are present. The first refusal is reported.
pub fn validate_xref_metadata(meta: &Json) -> (r: Result<(), HavenError>)
    ensures
        match r {
            Ok(()) => metadata_error(*meta) is None,
            Err(e) => metadata_error(*meta) matches Some(m) && invalid_with(e, m),
        },
{
    if matches!(meta, Json::Null) {
        return Ok(());
    }
    if !matches!(meta, Json::Object(_)) {
        return Err(HavenError::Invalid(string_of("artifact metadata must be a JSON object")));
    }
    let xref = match meta.get("xref") {
        Some(x) => x,
        None => return Ok(()),
    };
    match xref {
        Json::Array(entries) => {
            let mut i: usize = 0;
            while i < entries.len()
                invariant
                    i <= entries.len(),
                    meta.get_spec("xref"@) == Some(Json::Array(*entries)),
                    entries_error(entries@, i as int) is None,
                decreases entries.len() - i,
            {
                match check_entry(&entries[i], i) {
                    Ok(()) => {},
                    Err(e) => {
                        proof {
                            lemma_entries_error_stays(entries@, i as int + 1, entries@.len() as int);
                        }
                        return Err(e);
                    },
                }
                i = i + 1;
            }
            Ok(())
        },
        _ => Err(HavenError::Invalid(string_of("metadata.xref must be an array of xref objects"))),
    }
}

proof fn lemma_entries_error_stays(entries: Seq<Json>, a: int, b: int)
    requires
        0 <= a <= b,
        entries_error(entries, a) is Some,
    ensures
        entries_error(entries, b) == entries_error(entries, a),
    decreases b - a,
{
    if a < b {
        lemma_entries_error_stays(entries, a, b - 1);
    }
}

} // verus!

verus! {

// ---- lenient xrefs and their findings -----------------------------------------------

/// One xref entry folded from an artifact's `metadata.xref[]`, read leniently
/// so that a malformed entry is carried through and reported, not a load failure.
#[derive(Debug, Clone)]
pub struct RawXref {
    pub node_ref: String,
    pub artifact: String,
    pub role: ArtifactRole,
    pub path: Option<String>,
    /// The raw `relation` string as stored, when it is a string.
    pub relation_raw: Option<String>,
    /// A `relation` is present but names no relation.
    pub relation_invalid: bool,
    pub relation: Option<XrefRelation>,
    pub store: Option<String>,
    /// The target, when it is a non-blank string.
    pub target: Option<String>,
    pub canonical: bool,
}

/// A member of `entry` when it is an object.
pub open spec fn member_of(entry: Json, k: Seq<char>) -> Option<Json> {
    entry.get_spec(k)
}

/// The string member `k` of `entry`, when it is a string.
pub open spec fn str_member(entry: Json, k: Seq<char>) -> Option<Seq<char>> {
    as_str_spec(member_of(entry, k))
}

fn str_member_of(entry: &Json, k: &str) -> (r: Option<String>)
    ensures
        match r {
            Some(s) => str_member(*entry, k@) == Some(s@),
            None => str_member(*entry, k@) is None,
        },
{
    match entry.get(k) {
        Some(Json::Str(s)) => Some(s.clone()),
        _ => None,
    }
}

impl RawXref {
    /// Read one `xref` array entry leniently; never fails (a non-object entry
    /// yields an empty shell that the integrity scan reports).
    pub fn parse(node_ref: String, artifact: String, role: ArtifactRole, path: Option<String>, entry: &Json) -> (x: RawXref)
        ensures
            x.node_ref == node_ref,
            x.artifact == artifact,
            x.role == role,
            x.path == path,
            opt_string_view(x.relation_raw) == str_member(*entry, "relation"@),
            x.relation == (match member_of(*entry, "relation"@) {
                Some(v) => relation_of(v),
                None => None,
            }),
            x.relation_invalid == (member_of(*entry, "relation"@) is Some && x.relation is None),
            opt_string_view(x.store) == str_member(*entry, "store"@),
            opt_string_view(x.target) == (match str_member(*entry, "target"@) {
                Some(t) => if blank(t) {
                    None
                } else {
                    Some(t)
                },
                None => None,
            }),
            x.canonical == (member_of(*entry, "canonical"@) == Some(Json::Bool(true))),
    {
        let relation_value = entry.get("relation");
        let relation_raw = str_member_of(entry, "relation");
        let relation = match relation_value {
            Some(v) => parse_relation(v),
            None => None,
        };
        let relation_invalid = relation_value.is_some() && relation.is_none();
        let target = match str_member_of(entry, "target") {
            Some(t) => if crate::item::all_whitespace(t.as_str()) {
                None
            } else {
                Some(t)
            },
            None => None,
        };
        let canonical = match entry.get("canonical") {
            Some(Json::Bool(b)) => *b,
            _ => false,
        };
        let store = str_member_of(entry, "store");
        RawXref { node_ref, artifact, role, path, relation_raw, relation_invalid, relation, store, target, canonical }
    }

    /// The typed xref of a well-formed entry (a valid relation and a target);
    /// `None` for a malformed one. A missing store reads as empty.
    pub fn to_xref(&self) -> (r: Option<Xref>)
        ensures
            match r {
                Some(x) => self.relation == Some(x.relation) && self.target == Some(x.target)
                    && x.store@ == (match self.store {
                    Some(s) => s@,
                    None => Seq::<char>::empty(),
                }) && x.canonical == self.canonical,
                None => self.relation is None || self.target is None,
            },
    {
        let relation = match self.relation {
            Some(r) => r,
            None => return None,
        };
        let target = match &self.target {
            Some(t) => t.clone(),
            None => return None,
        };
        let store = match &self.store {
            Some(s) => s.clone(),
            None => String::new(),
        };
        Some(Xref { relation, store, target, canonical: self.canonical })
    }
}

/// The stores an xref may name without a lint.
pub open spec fn recognized_store(s: Seq<char>) -> bool {
    s == "servo"@ || s == "vault"@ || s == "github"@ || s == "haven"@
}

/// Why an entry with no target or no valid relation is structurally invalid.
pub open spec fn invalid_why(x: RawXref) -> Seq<char> {
    if x.target is None {
        "missing required `target`"@
    } else if x.relation_invalid {
        "unknown `relation` "@ + debug_quoted_spec(match x.relation_raw {
            Some(r) => r@,
            None => Seq::<char>::empty(),
        }) + " (not one of canonical-source|mirror|derived-from|discussed-in)"@
    } else {
        "missing required `relation`"@
    }
}

/// The findings for one xref of a project with ref prefix `prefix`:
/// structurally invalid (no target or no valid relation); else a Haven-shaped
/// target that resolves to no live node (`target_live` says whether it does);
/// then, independently, a store outside the recognized set.
pub open spec fn xref_findings(x: RawXref, prefix: Seq<char>, target_live: bool) -> Seq<(IntegrityKind, Seq<char>, Seq<char>)> {
    dangling_part(x, prefix, target_live) + store_part(x)
}

/// The dangling-xref finding of one xref, if any.
pub open spec fn dangling_part(x: RawXref, prefix: Seq<char>, target_live: bool) -> Seq<(IntegrityKind, Seq<char>, Seq<char>)> {
    if x.target is None || x.relation is None {
        seq![(IntegrityKind::DanglingXref, x.node_ref@, x.node_ref@ + ": structurally-invalid xref — "@ + invalid_why(x))]
    } else if haven_ref_spec(prefix, x.target.unwrap()@) && !target_live {
        seq![(IntegrityKind::DanglingXref, x.node_ref@, x.node_ref@ + ": xref target "@ + x.target.unwrap()@ + " is a Haven ref resolving to no live node"@)]
    } else {
        Seq::empty()
    }
}

/// The unknown-store finding of one xref, if any.
pub open spec fn store_part(x: RawXref) -> Seq<(IntegrityKind, Seq<char>, Seq<char>)> {
    match x.store {
        Some(s) => if !recognized_store(s@) {
            seq![(IntegrityKind::UnknownStore, x.node_ref@, x.node_ref@ + ": xref store "@ + debug_quoted_spec(s@) + " is not a recognized store (servo, vault, github, haven)"@)]
        } else {
            Seq::empty()
        },
        None => Seq::empty(),
    }
}

/// A finding as `(kind, node, detail)`.
pub open spec fn issue_view(i: IntegrityIssue) -> (IntegrityKind, Seq<char>, Seq<char>) {
    (i.kind, i.node@, i.detail@)
}

/// Whether a store is one of the recognized ones.
pub fn is_recognized_store(s: &str) -> (r: bool)
    ensures
        r == recognized_store(s@),
{
    str_eq(s, "servo") || str_eq(s, "vault") || str_eq(s, "github") || str_eq(s, "haven")
}

fn dangling_issue(x: &RawXref, prefix: &str, target_live: bool) -> (r: Vec<IntegrityIssue>)
    ensures
        r@.map_values(|i: IntegrityIssue| issue_view(i)) == dangling_part(*x, prefix@, target_live),
{
    let mut out: Vec<IntegrityIssue> = Vec::new();
    if x.target.is_none() || x.relation.is_none() {
        let mut d = string_of(x.node_ref.as_str());
        push_str(&mut d, ": structurally-invalid xref — ");
        let ghost pre = d@;
        if x.target.is_none() {
            push_str(&mut d, "missing required `target`");
        } else if x.relation_invalid {
            push_str(&mut d, "unknown `relation` ");
            let q = match &x.relation_raw {
                Some(r) => debug_quoted(r.as_str()),
                None => debug_quoted(""),
            };
            proof {
                reveal_strlit("");
                assert(""@ =~= Seq::<char>::empty());
            }
            push_str(&mut d, q.as_str());
            push_str(&mut d, " (not one of canonical-source|mirror|derived-from|discussed-in)");
        } else {
            push_str(&mut d, "missing required `relation`");
        }
        assert(d@ =~= pre + invalid_why(*x));
        out.push(IntegrityIssue { kind: IntegrityKind::DanglingXref, node: x.node_ref.clone(), detail: d });
    } else {
        let t = x.target.as_ref().unwrap();
        if is_haven_ref(prefix, t.as_str()) && !target_live {
            let mut d = string_of(x.node_ref.as_str());
            push_str(&mut d, ": xref target ");
            push_str(&mut d, t.as_str());
            push_str(&mut d, " is a Haven ref resolving to no live node");
            out.push(IntegrityIssue { kind: IntegrityKind::DanglingXref, node: x.node_ref.clone(), detail: d });
        }
    }
    assert(out@.map_values(|i: IntegrityIssue| issue_view(i)) =~= dangling_part(*x, prefix@, target_live));
    out
}

fn store_issue(x: &RawXref) -> (r: Vec<IntegrityIssue>)
    ensures
        r@.map_values(|i: IntegrityIssue| issue_view(i)) == store_part(*x),
{
    let mut out: Vec<IntegrityIssue> = Vec::new();
    match &x.store {
        Some(s) => {
            if !is_recognized_store(s.as_str()) {
                let mut d = string_of(x.node_ref.as_str());
                push_str(&mut d, ": xref store ");
                let q = debug_quoted(s.as_str());
                push_str(&mut d, q.as_str());
                push_str(&mut d, " is not a recognized store (servo, vault, github, haven)");
                out.push(IntegrityIssue { kind: IntegrityKind::UnknownStore, node: x.node_ref.clone(), detail: d });
            }
        },
        None => {},
    }
    assert(out@.map_values(|i: IntegrityIssue| issue_view(i)) =~= store_part(*x));
    out
}

/// The dangling and unknown-store findings for one xref; `target_live` says
/// whether its target resolves to a live node of the project.
pub fn xref_issues(x: &RawXref, prefix: &str, target_live: bool) -> (r: Vec<IntegrityIssue>)
    ensures
        r@.map_values(|i: IntegrityIssue| issue_view(i)) == xref_findings(*x, prefix@, target_live),
{
    let mut a = dangling_issue(x, prefix, target_live);
    let mut b = store_issue(x);
    let ghost av = a@;
    let ghost bv = b@;
    a.append(&mut b);
    assert(a@ == av + bv);
    assert(a@.map_values(|i: IntegrityIssue| issue_view(i)) =~= av.map_values(|i: IntegrityIssue| issue_view(i)) + bv.map_values(|i: IntegrityIssue| issue_view(i)));
    a
}

} // verus!

verus! {

// ---- canonical conflicts -------------------------------------------------------------

/// Strictly increasing under the lexicographic order.
pub open spec fn strictly_sorted(s: Seq<Seq<char>>) -> bool {
    forall|a: int, b: int| 0 <= a < b < s.len() ==> seq_lt(#[trigger] s[a], #[trigger] s[b])
}

/// Insert `s` into a strictly sorted list of strings unless it is already there.
fn insert_sorted(v: &mut Vec<String>, s: String)
    requires
        strictly_sorted(strings_view(old(v)@)),
    ensures
        strictly_sorted(strings_view(final(v)@)),
        forall|x: Seq<char>| #[trigger] strings_view(final(v)@).contains(x) <==> (strings_view(old(v)@).contains(x) || x == s@),
{
    let ghost old_v = strings_view(v@);
    let mut i: usize = 0;
    while i < v.len() && str_lt(v[i].as_str(), s.as_str())
        invariant
            i <= v.len(),
            strings_view(v@) == old_v,
            strictly_sorted(old_v),
            forall|j: int| 0 <= j < i ==> seq_lt(#[trigger] old_v[j], s@),
        decreases v.len() - i,
    {
        i = i + 1;
    }
    if i < v.len() && str_eq(v[i].as_str(), s.as_str()) {
        proof {
            assert forall|x: Seq<char>| #[trigger] old_v.contains(x) <==> (old_v.contains(x) || x == s@) by {
                if x == s@ {
                    assert(old_v[i as int] == x);
                }
            }
        }
        return;
    }
    proof {
        if i < v.len() {
            crate::text::lemma_seq_lt_total(old_v[i as int], s@);
        }
    }
    v.insert(i, s);
    proof {
        let nv = strings_view(v@);
        assert(nv =~= old_v.insert(i as int, s@));
        assert forall|a: int, b: int| 0 <= a < b < nv.len() implies seq_lt(#[trigger] nv[a], #[trigger] nv[b]) by {
            if b < i {
            } else if b == i {
            } else if a == i {
                if b - 1 > i {
                    crate::text::lemma_seq_lt_trans(s@, old_v[i as int], old_v[b - 1]);
                }
            } else if a < i {
                assert(nv[b] == old_v[b - 1]);
            } else {
                assert(nv[a] == old_v[a - 1]);
                assert(nv[b] == old_v[b - 1]);
            }
        }
        assert forall|x: Seq<char>| #[trigger] nv.contains(x) <==> (old_v.contains(x) || x == s@) by {
            if nv.contains(x) {
                let k = choose|k: int| 0 <= k < nv.len() && nv[k] == x;
                if k < i {
                    assert(old_v[k] == x);
                } else if k > i {
                    assert(old_v[k - 1] == x);
                }
            }
            if old_v.contains(x) {
                let k = choose|k: int| 0 <= k < old_v.len() && old_v[k] == x;
                if k < i {
                    assert(nv[k] == x);
                } else {
                    assert(nv[k + 1] == x);
                }
            }
            if x == s@ {
                assert(nv[i as int] == x);
            }
        }
    }
}

/// One canonical-conflict group: a normalized `(store, target)` key and the
/// refs of the nodes whose artifacts claim it canonical, sorted and unique.
#[derive(Debug, Clone)]
pub struct CanonicalGroup {
    pub store: String,
    pub target: String,
    pub nodes: Vec<String>,
}

/// An xref that claims canonicity for a `(store, target)` key.
pub open spec fn canonical_candidate(x: RawXref) -> bool {
    x.canonical && x.store is Some && x.target is Some
}

/// The normalized key of a canonical candidate.
pub open spec fn candidate_key(x: RawXref) -> (Seq<char>, Seq<char>) {
    (normalize_key_spec(x.store.unwrap()@), normalize_key_spec(x.target.unwrap()@))
}

/// Key order: by store, then by target.
pub open spec fn key_lt(a: (Seq<char>, Seq<char>), b: (Seq<char>, Seq<char>)) -> bool {
    seq_lt(a.0, b.0) || (a.0 == b.0 && seq_lt(a.1, b.1))
}

/// The key of a group.
pub open spec fn group_key(g: CanonicalGroup) -> (Seq<char>, Seq<char>) {
    (g.store@, g.target@)
}

/// Some candidate among `raws[..n]` has key `k`.
pub open spec fn has_candidate(raws: Seq<RawXref>, n: int, k: (Seq<char>, Seq<char>)) -> bool {
    exists|rk: int| #![trigger raws[rk]] 0 <= rk < n && canonical_candidate(raws[rk]) && candidate_key(raws[rk]) == k
}

/// Some group has key `k`.
pub open spec fn has_group(gs: Seq<CanonicalGroup>, k: (Seq<char>, Seq<char>)) -> bool {
    exists|gk: int| #![trigger gs[gk]] 0 <= gk < gs.len() && group_key(gs[gk]) == k
}

/// `x` is the ref of a candidate among `raws[..n]` with key `k`.
pub open spec fn claimants(raws: Seq<RawXref>, n: int, k: (Seq<char>, Seq<char>), x: Seq<char>) -> bool {
    exists|rk: int| #![trigger raws[rk]] 0 <= rk < n && canonical_candidate(raws[rk]) && candidate_key(raws[rk]) == k && raws[rk].node_ref@ == x
}

/// Group keys strictly increasing.
pub open spec fn groups_sorted(gs: Seq<CanonicalGroup>) -> bool {
    forall|a: int, b: int| 0 <= a < b < gs.len() ==> key_lt(group_key(#[trigger] gs[a]), group_key(#[trigger] gs[b]))
}

/// Each group's node refs strictly sorted.
pub open spec fn groups_nodes_sorted(gs: Seq<CanonicalGroup>) -> bool {
    forall|g: int| 0 <= g < gs.len() ==> strictly_sorted(strings_view(#[trigger] gs[g].nodes@))
}

/// Every group key is the key of a candidate among `raws[..n]`.
pub open spec fn groups_sound(raws: Seq<RawXref>, n: int, gs: Seq<CanonicalGroup>) -> bool {
    forall|g: int| 0 <= g < gs.len() ==> has_candidate(raws, n, group_key(#[trigger] gs[g]))
}

/// Every candidate among `raws[..n]` has its key's group.
pub open spec fn groups_complete(raws: Seq<RawXref>, n: int, gs: Seq<CanonicalGroup>) -> bool {
    forall|r: int| 0 <= r < n && canonical_candidate(#[trigger] raws[r]) ==> has_group(gs, candidate_key(raws[r]))
}

/// Each group holds exactly the refs of the candidates with its key.
pub open spec fn groups_exact(raws: Seq<RawXref>, n: int, gs: Seq<CanonicalGroup>) -> bool {
    forall|g: int, x: Seq<char>| 0 <= g < gs.len() ==> (#[trigger] strings_view(gs[g].nodes@).contains(x) <==> claimants(raws, n, group_key(gs[g]), x))
}

/// Groups correctly summarize the canonical candidates among `raws[..n]`: keys
/// strictly increasing and exactly the candidates' keys; each group's nodes
/// strictly sorted and exactly the refs of the candidates with its key.
#[verifier::opaque]
pub open spec fn groups_of(raws: Seq<RawXref>, n: int, gs: Seq<CanonicalGroup>) -> bool {
    &&& groups_sorted(gs)
    &&& groups_nodes_sorted(gs)
    &&& groups_sound(raws, n, gs)
    &&& groups_complete(raws, n, gs)
    &&& groups_exact(raws, n, gs)
}

proof fn lemma_key_lt_trans(a: (Seq<char>, Seq<char>), b: (Seq<char>, Seq<char>), c: (Seq<char>, Seq<char>))
    requires
        key_lt(a, b),
        key_lt(b, c),
    ensures
        key_lt(a, c),
{
    if seq_lt(a.0, b.0) && seq_lt(b.0, c.0) {
        crate::text::lemma_seq_lt_trans(a.0, b.0, c.0);
    } else if seq_lt(a.1, b.1) && seq_lt(b.1, c.1) && a.0 == b.0 && b.0 == c.0 {
        crate::text::lemma_seq_lt_trans(a.1, b.1, c.1);
    }
}

proof fn lemma_key_lt_total(a: (Seq<char>, Seq<char>), b: (Seq<char>, Seq<char>))
    ensures
        a == b || key_lt(a, b) || key_lt(b, a),
{
    crate::text::lemma_seq_lt_total(a.0, b.0);
    crate::text::lemma_seq_lt_total(a.1, b.1);
}

proof fn lemma_key_lt_irreflexive(a: (Seq<char>, Seq<char>))
    ensures
        !key_lt(a, a),
{
    crate::text::lemma_seq_lt_irreflexive(a.0);
    crate::text::lemma_seq_lt_irreflexive(a.1);
}

proof fn lemma_has_candidate_step(raws: Seq<RawXref>, i: int, k: (Seq<char>, Seq<char>))
    requires
        0 <= i < raws.len(),
    ensures
        has_candidate(raws, i + 1, k) == (has_candidate(raws, i, k) || (canonical_candidate(raws[i]) && candidate_key(raws[i]) == k)),
{
    if has_candidate(raws, i + 1, k) {
        let r = choose|r: int| #![trigger raws[r]] 0 <= r < i + 1 && canonical_candidate(raws[r]) && candidate_key(raws[r]) == k;
        if r < i {
            assert(has_candidate(raws, i, k));
        }
    }
    if has_candidate(raws, i, k) {
        let r = choose|r: int| #![trigger raws[r]] 0 <= r < i && canonical_candidate(raws[r]) && candidate_key(raws[r]) == k;
        assert(has_candidate(raws, i + 1, k));
    }
    if canonical_candidate(raws[i]) && candidate_key(raws[i]) == k {
        assert(has_candidate(raws, i + 1, k));
    }
}

proof fn lemma_claimants_step(raws: Seq<RawXref>, i: int, k: (Seq<char>, Seq<char>), x: Seq<char>)
    requires
        0 <= i < raws.len(),
    ensures
        claimants(raws, i + 1, k, x) == (claimants(raws, i, k, x) || (canonical_candidate(raws[i]) && candidate_key(raws[i]) == k && raws[i].node_ref@ == x)),
{
    if claimants(raws, i + 1, k, x) {
        let r = choose|r: int| #![trigger raws[r]] 0 <= r < i + 1 && canonical_candidate(raws[r]) && candidate_key(raws[r]) == k && raws[r].node_ref@ == x;
        if r < i {
            assert(claimants(raws, i, k, x));
        }
    }
    if claimants(raws, i, k, x) {
        let r = choose|r: int| #![trigger raws[r]] 0 <= r < i && canonical_candidate(raws[r]) && candidate_key(raws[r]) == k && raws[r].node_ref@ == x;
        assert(claimants(raws, i + 1, k, x));
    }
    if canonical_candidate(raws[i]) && candidate_key(raws[i]) == k && raws[i].node_ref@ == x {
        assert(claimants(raws, i + 1, k, x));
    }
}

/// A candidate's key has no claimants outside its group when keys are unique.
proof fn lemma_claimant_key(raws: Seq<RawXref>, n: int, k: (Seq<char>, Seq<char>), x: Seq<char>)
    requires
        claimants(raws, n, k, x),
    ensures
        has_candidate(raws, n, k),
{
    let r = choose|r: int| #![trigger raws[r]] 0 <= r < n && canonical_candidate(raws[r]) && candidate_key(raws[r]) == k && raws[r].node_ref@ == x;
    assert(0 <= r < n && canonical_candidate(raws[r]) && candidate_key(raws[r]) == k);
}

proof fn lemma_groups_skip(raws: Seq<RawXref>, i: int, gs: Seq<CanonicalGroup>)
    requires
        0 <= i < raws.len(),
        groups_of(raws, i, gs),
        !canonical_candidate(raws[i]),
    ensures
        groups_of(raws, i + 1, gs),
{
    reveal(groups_of);
    assert forall|g: int| 0 <= g < gs.len() implies has_candidate(raws, i + 1, group_key(#[trigger] gs[g])) by {
        lemma_has_candidate_step(raws, i, group_key(gs[g]));
    }
    assert forall|r: int| 0 <= r < i + 1 && canonical_candidate(#[trigger] raws[r]) implies has_group(gs, candidate_key(raws[r])) by {
        assert(r < i);
    }
    assert forall|g: int, x: Seq<char>| 0 <= g < gs.len() implies (#[trigger] strings_view(gs[g].nodes@).contains(x) <==> claimants(raws, i + 1, group_key(gs[g]), x)) by {
        lemma_claimants_step(raws, i, group_key(gs[g]), x);
    }
}

#[verifier::rlimit(60)]
proof fn lemma_groups_add_node(raws: Seq<RawXref>, i: int, old_gs: Seq<CanonicalGroup>, gs: Seq<CanonicalGroup>, p: int)
    requires
        0 <= i < raws.len(),
        groups_of(raws, i, old_gs),
        canonical_candidate(raws[i]),
        0 <= p < old_gs.len(),
        group_key(old_gs[p]) == candidate_key(raws[i]),
        gs == old_gs.update(p, gs[p]),
        group_key(gs[p]) == group_key(old_gs[p]),
        strictly_sorted(strings_view(gs[p].nodes@)),
        forall|x: Seq<char>| #[trigger] strings_view(gs[p].nodes@).contains(x) <==> (strings_view(old_gs[p].nodes@).contains(x) || x == raws[i].node_ref@),
    ensures
        groups_of(raws, i + 1, gs),
{
    reveal(groups_of);
    let k = candidate_key(raws[i]);
    assert forall|a: int, b: int| 0 <= a < b < gs.len() implies key_lt(group_key(#[trigger] gs[a]), group_key(#[trigger] gs[b])) by {
        assert(group_key(gs[a]) == group_key(old_gs[a]));
        assert(group_key(gs[b]) == group_key(old_gs[b]));
    }
    assert forall|g: int| 0 <= g < gs.len() implies strictly_sorted(strings_view(#[trigger] gs[g].nodes@)) by {
        if g != p {
            assert(gs[g] == old_gs[g]);
        }
    }
    assert forall|g: int| 0 <= g < gs.len() implies has_candidate(raws, i + 1, group_key(#[trigger] gs[g])) by {
        assert(group_key(gs[g]) == group_key(old_gs[g]));
        assert(has_candidate(raws, i, group_key(old_gs[g])));
        lemma_has_candidate_step(raws, i, group_key(gs[g]));
    }
    assert forall|r: int| 0 <= r < i + 1 && canonical_candidate(#[trigger] raws[r]) implies has_group(gs, candidate_key(raws[r])) by {
        if r == i {
            assert(group_key(gs[p]) == candidate_key(raws[r]));
        } else {
            assert(has_group(old_gs, candidate_key(raws[r])));
            let g = choose|g: int| #![trigger old_gs[g]] 0 <= g < old_gs.len() && group_key(old_gs[g]) == candidate_key(raws[r]);
            assert(group_key(gs[g]) == group_key(old_gs[g]));
        }
    }
    assert forall|g: int, x: Seq<char>| 0 <= g < gs.len() implies (#[trigger] strings_view(gs[g].nodes@).contains(x) <==> claimants(raws, i + 1, group_key(gs[g]), x)) by {
        lemma_claimants_step(raws, i, group_key(gs[g]), x);
        assert(strings_view(old_gs[g].nodes@).contains(x) <==> claimants(raws, i, group_key(old_gs[g]), x));
        if g != p {
            assert(gs[g] == old_gs[g]);
            if k == group_key(gs[g]) {
                lemma_key_lt_irreflexive(k);
                if g < p {
                    assert(key_lt(group_key(old_gs[g]), group_key(old_gs[p])));
                } else {
                    assert(key_lt(group_key(old_gs[p]), group_key(old_gs[g])));
                }
            }
        }
    }
}

#[verifier::rlimit(60)]
proof fn lemma_groups_add_group(raws: Seq<RawXref>, i: int, old_gs: Seq<CanonicalGroup>, gs: Seq<CanonicalGroup>, p: int)
    requires
        0 <= i < raws.len(),
        groups_of(raws, i, old_gs),
        canonical_candidate(raws[i]),
        0 <= p <= old_gs.len(),
        forall|g: int| 0 <= g < p ==> key_lt(group_key(#[trigger] old_gs[g]), candidate_key(raws[i])),
        p < old_gs.len() ==> key_lt(candidate_key(raws[i]), group_key(old_gs[p])),
        gs == old_gs.insert(p, gs[p]),
        group_key(gs[p]) == candidate_key(raws[i]),
        strings_view(gs[p].nodes@) == seq![raws[i].node_ref@],
    ensures
        groups_of(raws, i + 1, gs),
{
    reveal(groups_of);
    let k = candidate_key(raws[i]);
    assert forall|g: int| 0 <= g < old_gs.len() implies (g < p ==> key_lt(group_key(#[trigger] old_gs[g]), k)) && (g >= p ==> key_lt(k, group_key(old_gs[g]))) by {
        if g > p {
            lemma_key_lt_trans(k, group_key(old_gs[p]), group_key(old_gs[g]));
        }
    }
    assert forall|a: int, b: int| 0 <= a < b < gs.len() implies key_lt(group_key(#[trigger] gs[a]), group_key(#[trigger] gs[b])) by {
        if b < p {
        } else if b == p {
        } else if a == p {
            assert(gs[b] == old_gs[b - 1]);
        } else if a < p {
            assert(gs[b] == old_gs[b - 1]);
        } else {
            assert(gs[a] == old_gs[a - 1]);
            assert(gs[b] == old_gs[b - 1]);
        }
    }
    assert forall|g: int| 0 <= g < gs.len() implies strictly_sorted(strings_view(#[trigger] gs[g].nodes@)) by {
        if g < p {
            assert(gs[g] == old_gs[g]);
        } else if g > p {
            assert(gs[g] == old_gs[g - 1]);
        }
    }
    assert forall|g: int| 0 <= g < gs.len() implies has_candidate(raws, i + 1, group_key(#[trigger] gs[g])) by {
        lemma_has_candidate_step(raws, i, group_key(gs[g]));
        if g < p {
            assert(gs[g] == old_gs[g]);
            assert(has_candidate(raws, i, group_key(old_gs[g])));
        } else if g > p {
            assert(gs[g] == old_gs[g - 1]);
            assert(has_candidate(raws, i, group_key(old_gs[g - 1])));
        }
    }
    assert forall|r: int| 0 <= r < i + 1 && canonical_candidate(#[trigger] raws[r]) implies has_group(gs, candidate_key(raws[r])) by {
        if r == i {
            assert(group_key(gs[p]) == candidate_key(raws[r]));
        } else {
            assert(has_group(old_gs, candidate_key(raws[r])));
            let g = choose|g: int| #![trigger old_gs[g]] 0 <= g < old_gs.len() && group_key(old_gs[g]) == candidate_key(raws[r]);
            if g < p {
                assert(gs[g] == old_gs[g]);
            } else {
                assert(gs[g + 1] == old_gs[g]);
            }
        }
    }
    assert forall|g: int, x: Seq<char>| 0 <= g < gs.len() implies (#[trigger] strings_view(gs[g].nodes@).contains(x) <==> claimants(raws, i + 1, group_key(gs[g]), x)) by {
        lemma_claimants_step(raws, i, group_key(gs[g]), x);
        lemma_key_lt_irreflexive(k);
        if g == p {
            if claimants(raws, i, k, x) {
                lemma_claimant_key(raws, i, k, x);
                let r = choose|r: int| #![trigger raws[r]] 0 <= r < i && canonical_candidate(raws[r]) && candidate_key(raws[r]) == k;
                assert(has_group(old_gs, candidate_key(raws[r])));
                let h = choose|h: int| #![trigger old_gs[h]] 0 <= h < old_gs.len() && group_key(old_gs[h]) == candidate_key(raws[r]);
                assert(h < p || h >= p);
            }
            if strings_view(gs[g].nodes@).contains(x) {
                assert(seq![raws[i].node_ref@][0] == raws[i].node_ref@);
            }
            if x == raws[i].node_ref@ {
                assert(strings_view(gs[g].nodes@)[0] == x);
            }
        } else {
            let og = if g < p { g } else { g - 1 };
            assert(gs[g] == old_gs[og]);
            assert(strings_view(old_gs[og].nodes@).contains(x) <==> claimants(raws, i, group_key(old_gs[og]), x));
            assert(group_key(old_gs[og]) != k);
        }
    }
}

/// The position of the first group whose key is not below `k`.
fn group_position(groups: &Vec<CanonicalGroup>, store: &str, target: &str) -> (p: usize)
    ensures
        p <= groups.len(),
        forall|g: int| 0 <= g < p ==> key_lt(group_key(#[trigger] groups@[g]), (store@, target@)),
        p < groups.len() ==> !key_lt(group_key(groups@[p as int]), (store@, target@)),
{
    let mut p: usize = 0;
    while p < groups.len()
        invariant
            p <= groups.len(),
            forall|g: int| 0 <= g < p ==> key_lt(group_key(#[trigger] groups@[g]), (store@, target@)),
        decreases groups.len() - p,
    {
        let gs = groups[p].store.as_str();
        let gt = groups[p].target.as_str();
        let lt = str_lt(gs, store) || (str_eq(gs, store) && str_lt(gt, target));
        if !lt {
            return p;
        }
        p = p + 1;
    }
    p
}

/// Group the canonical xrefs by their normalized `(store, target)` key, keys in
/// order, each group's node refs sorted and unique.
pub fn canonical_groups(raws: &Vec<RawXref>) -> (gs: Vec<CanonicalGroup>)
    ensures
        groups_of(raws@, raws.len() as int, gs@),
{
    let mut groups: Vec<CanonicalGroup> = Vec::new();
    let mut i: usize = 0;
    proof {
        reveal(groups_of);
    }
    while i < raws.len()
        invariant
            i <= raws.len(),
            groups_of(raws@, i as int, groups@),
        decreases raws.len() - i,
    {
        let x = &raws[i];
        if x.canonical && x.store.is_some() && x.target.is_some() {
            let store = normalize_key(x.store.as_ref().unwrap().as_str());
            let target = normalize_key(x.target.as_ref().unwrap().as_str());
            let ghost k = (store@, target@);
            assert(canonical_candidate(raws@[i as int]) && candidate_key(raws@[i as int]) == k);
            let p = group_position(&groups, store.as_str(), target.as_str());
            let same = p < groups.len() && str_eq(groups[p].store.as_str(), store.as_str()) && str_eq(groups[p].target.as_str(), target.as_str());
            let ghost old_gs = groups@;
            if same {
                let mut g = groups.remove(p);
                proof {
                    reveal(groups_of);
                    assert(g == old_gs[p as int]);
                    assert(strictly_sorted(strings_view(old_gs[p as int].nodes@)));
                }
                insert_sorted(&mut g.nodes, x.node_ref.clone());
                groups.insert(p, g);
                proof {
                    assert(groups@ =~= old_gs.update(p as int, groups@[p as int]));
                    lemma_groups_add_node(raws@, i as int, old_gs, groups@, p as int);
                }
            } else {
                let mut nodes: Vec<String> = Vec::new();
                nodes.push(x.node_ref.clone());
                groups.insert(p, CanonicalGroup { store, target, nodes });
                proof {
                    assert(groups@ =~= old_gs.insert(p as int, groups@[p as int]));
                    assert(strings_view(groups@[p as int].nodes@) =~= seq![raws@[i as int].node_ref@]);
                    if p < old_gs.len() {
                        lemma_key_lt_total(group_key(old_gs[p as int]), k);
                    }
                    lemma_groups_add_group(raws@, i as int, old_gs, groups@, p as int);
                }
            }
        } else {
            proof {
                lemma_groups_skip(raws@, i as int, groups@);
            }
        }
        i = i + 1;
    }
    groups
}

} // verus!

verus! {

/// The finding text shared by every node of a conflicting group.
pub open spec fn conflict_detail(g: CanonicalGroup) -> Seq<char> {
    nat_digits(g.nodes.len() as nat) + " artifacts claim canonical:true for the same ("@ + g.store@ + ", "@
        + g.target@ + "): "@ + join(strings_view(g.nodes@), ", "@)
}

/// The findings of one group: one per node when more than one node claims the key.
pub open spec fn group_findings(g: CanonicalGroup) -> Seq<(IntegrityKind, Seq<char>, Seq<char>)> {
    if g.nodes.len() > 1 {
        strings_view(g.nodes@).map_values(|n: Seq<char>| (IntegrityKind::CanonicalConflict, n, conflict_detail(g)))
    } else {
        Seq::empty()
    }
}

/// The conflict findings of the first `n` groups, in order.
pub open spec fn conflict_findings(gs: Seq<CanonicalGroup>, n: int) -> Seq<(IntegrityKind, Seq<char>, Seq<char>)>
    decreases n,
{
    if n <= 0 {
        Seq::empty()
    } else {
        conflict_findings(gs, n - 1) + group_findings(gs[n - 1])
    }
}

/// The per-xref findings of the first `n` xrefs, in order.
pub open spec fn all_xref_findings(raws: Seq<RawXref>, prefix: Seq<char>, live: Seq<bool>, n: int) -> Seq<(IntegrityKind, Seq<char>, Seq<char>)>
    decreases n,
{
    if n <= 0 {
        Seq::empty()
    } else {
        all_xref_findings(raws, prefix, live, n - 1) + xref_findings(raws[n - 1], prefix, live[n - 1])
    }
}

fn group_issues(g: &CanonicalGroup) -> (r: Vec<IntegrityIssue>)
    ensures
        r@.map_values(|i: IntegrityIssue| issue_view(i)) == group_findings(*g),
{
    let mut out: Vec<IntegrityIssue> = Vec::new();
    if g.nodes.len() > 1 {
        let mut d = String::new();
        push_usize(&mut d, g.nodes.len());
        push_str(&mut d, " artifacts claim canonical:true for the same (");
        push_str(&mut d, g.store.as_str());
        push_str(&mut d, ", ");
        push_str(&mut d, g.target.as_str());
        push_str(&mut d, "): ");
        let mut ws: Vec<Vec<char>> = Vec::new();
        let mut i: usize = 0;
        while i < g.nodes.len()
            invariant
                i <= g.nodes.len(),
                ws@.map_values(|w: Vec<char>| w@) == strings_view(g.nodes@).take(i as int),
            decreases g.nodes.len() - i,
        {
            let ghost before = ws@;
            let w = chars_of(g.nodes[i].as_str());
            ws.push(w);
            proof {
                assert(ws@.map_values(|w: Vec<char>| w@) =~= before.map_values(|w: Vec<char>| w@).push(g.nodes@[i as int]@));
                assert(strings_view(g.nodes@).take(i + 1) =~= strings_view(g.nodes@).take(i as int).push(g.nodes@[i as int]@));
            }
            i = i + 1;
        }
        assert(strings_view(g.nodes@).take(g.nodes.len() as int) =~= strings_view(g.nodes@));
        push_joined(&mut d, &ws, ", ");
        assert(d@ =~= conflict_detail(*g));
        let ghost f = |n: Seq<char>| (IntegrityKind::CanonicalConflict, n, conflict_detail(*g));
        let mut j: usize = 0;
        while j < g.nodes.len()
            invariant
                j <= g.nodes.len(),
                d@ == conflict_detail(*g),
                f == (|n: Seq<char>| (IntegrityKind::CanonicalConflict, n, conflict_detail(*g))),
                out@.map_values(|i: IntegrityIssue| issue_view(i)) == strings_view(g.nodes@).take(j as int).map_values(f),
            decreases g.nodes.len() - j,
        {
            let ghost before = out@;
            out.push(IntegrityIssue { kind: IntegrityKind::CanonicalConflict, node: g.nodes[j].clone(), detail: d.clone() });
            proof {
                assert(out@.map_values(|i: IntegrityIssue| issue_view(i)) =~= before.map_values(|i: IntegrityIssue| issue_view(i)).push(f(g.nodes@[j as int]@)));
                assert(strings_view(g.nodes@).take(j + 1).map_values(f) =~= strings_view(g.nodes@).take(j as int).map_values(f).push(f(g.nodes@[j as int]@)));
            }
            j = j + 1;
        }
        assert(strings_view(g.nodes@).take(g.nodes.len() as int) =~= strings_view(g.nodes@));
    }
    out
}

/// The xref findings of one project with ref prefix `prefix`: first the
/// canonical conflicts (more than one node claiming the same normalized
/// `(store, target)` canonical), by key, one finding per node; then, per xref in
/// order, its dangling and unknown-store findings. `live[i]` says whether xref
/// `i`'s target resolves to a live node of the project.
pub fn project_xref_issues(prefix: &str, raws: &Vec<RawXref>, live: &Vec<bool>) -> (r: Vec<IntegrityIssue>)
    requires
        live.len() == raws.len(),
    ensures
        exists|gs: Seq<CanonicalGroup>| groups_of(raws@, raws.len() as int, gs)
            && r@.map_values(|i: IntegrityIssue| issue_view(i)) == conflict_findings(gs, gs.len() as int)
            + all_xref_findings(raws@, prefix@, live@, raws.len() as int),
{
    let groups = canonical_groups(raws);
    let mut out: Vec<IntegrityIssue> = Vec::new();
    let mut g: usize = 0;
    while g < groups.len()
        invariant
            g <= groups.len(),
            out@.map_values(|i: IntegrityIssue| issue_view(i)) == conflict_findings(groups@, g as int),
        decreases groups.len() - g,
    {
        let ghost before = out@;
        let mut more = group_issues(&groups[g]);
        let ghost mv = more@;
        out.append(&mut more);
        proof {
            assert(out@ == before + mv);
            assert(out@.map_values(|i: IntegrityIssue| issue_view(i)) =~= before.map_values(|i: IntegrityIssue| issue_view(i)) + mv.map_values(|i: IntegrityIssue| issue_view(i)));
        }
        g = g + 1;
    }
    let ghost mid = out@.map_values(|i: IntegrityIssue| issue_view(i));
    let mut i: usize = 0;
    while i < raws.len()
        invariant
            i <= raws.len(),
            live.len() == raws.len(),
            mid == conflict_findings(groups@, groups.len() as int),
            out@.map_values(|i: IntegrityIssue| issue_view(i)) == mid + all_xref_findings(raws@, prefix@, live@, i as int),
        decreases raws.len() - i,
    {
        let ghost before = out@;
        let mut more = xref_issues(&raws[i], prefix, live[i]);
        let ghost mv = more@;
        out.append(&mut more);
        proof {
            assert(out@ == before + mv);
            assert(out@.map_values(|i: IntegrityIssue| issue_view(i)) =~= before.map_values(|i: IntegrityIssue| issue_view(i)) + mv.map_values(|i: IntegrityIssue| issue_view(i)));
        }
        i = i + 1;
    }
    out
}

} // verus!
