//! Bulk import: one validated batch becomes one all-or-nothing transaction.
//! Items may carry a file-local temp `id` so that edges (`parent`,
//! `depends_on`, `group`) can name batch siblings, forward references
//! included, beside existing refs. Everything is checked before any write;
//! this module decides, from the batch and what the store already holds, the
//! first refusal or the full plan of nodes and edges to write.

use vstd::prelude::*;
use crate::edge::EdgeKind;
use crate::error::{invalid_with, HavenError};
use crate::item::{acceptance_blank, acceptance_blank_spec, all_whitespace, blank, normalize_title, normalize_title_spec, opt_string_view, opt_view};
use crate::model::{
    node_type_name, node_type_parse_error, owner_kind_name, owner_kind_parse_error, status_name,
    status_parse_error, Item, NodeType, OwnerKind, Status,
};
use crate::text::{strings_view, debug_quoted, debug_quoted_spec, nat_digits, push_str, push_usize, str_eq, string_of};

verus! {

/// Statuses an item must not be born in through import: they imply work
/// already under way or finished.
pub open spec fn engaged_spec(s: Status) -> bool {
    s == Status::InProgress || s == Status::Blocked || s == Status::Done
}

/// Whether a status is engaged (in progress, blocked or done).
pub fn engaged_status(status: Status) -> (r: bool)
    ensures
        r == engaged_spec(status),
{
    match status {
        Status::InProgress | Status::Blocked | Status::Done => true,
        _ => false,
    }
}

/// One item of an import file: the `item add` surface plus a temp `id` and
/// edge fields that name existing refs or temp ids of the same file.
#[derive(Debug, Clone)]
pub struct ImportItem {
    pub title: String,
    pub id: Option<String>,
    pub node_type: Option<String>,
    pub body: Option<String>,
    pub done_looks_like: Option<String>,
    pub why: Option<String>,
    pub status: Option<String>,
    pub priority: Option<i64>,
    pub commit: bool,
    pub assign: Option<String>,
    pub parent: Option<String>,
    pub depends_on: Vec<String>,
    pub group: Option<String>,
}

/// The enum fields of one item, parsed before any write.
#[derive(Debug, Clone, Copy, PartialEq, Eq, Structural)]
pub struct ParsedAxes {
    pub node_type: NodeType,
    pub status: Status,
    pub assign: Option<OwnerKind>,
}

// ---- the per-item checks ----------------------------------------------------

/// `items[i]: `, the prefix of every refusal about item `i`.
pub open spec fn item_prefix(i: int) -> Seq<char> {
    "items["@ + nat_digits(i as nat) + "]: "@
}

/// How a refusal names an item: its temp id quoted, else its batch index.
pub open spec fn item_label(it: ImportItem, i: int) -> Seq<char> {
    match it.id {
        Some(d) => debug_quoted_spec(d@),
        None => "index "@ + nat_digits(i as nat),
    }
}

/// Some earlier item carries the same temp id as item `i`.
pub open spec fn dup_before(items: Seq<ImportItem>, i: int) -> bool {
    exists|j: int|
        0 <= j < i && #[trigger] items[j].id is Some && items[j].id.unwrap()@ == items[i].id.unwrap()@
}

/// A type name that parses (or is absent).
pub open spec fn type_ok(o: Option<String>) -> bool {
    o matches Some(t) ==> exists|x: NodeType| node_type_name(x) == t@
}

/// A status name that parses (or is absent).
pub open spec fn status_ok(o: Option<String>) -> bool {
    o matches Some(t) ==> exists|x: Status| status_name(x) == t@
}

/// An owner name that parses (or is absent).
pub open spec fn assign_ok(o: Option<String>) -> bool {
    o matches Some(t) ==> exists|x: OwnerKind| owner_kind_name(x) == t@
}

/// The parsed type, `task` when absent.
pub open spec fn parsed_type(o: Option<String>) -> NodeType {
    match o {
        Some(t) => choose|x: NodeType| node_type_name(x) == t@,
        None => NodeType::Task,
    }
}

/// The parsed status, `discovery` when absent.
pub open spec fn parsed_status(o: Option<String>) -> Status {
    match o {
        Some(t) => choose|x: Status| status_name(x) == t@,
        None => Status::Discovery,
    }
}

/// The parsed owner.
pub open spec fn parsed_assign(o: Option<String>) -> Option<OwnerKind> {
    match o {
        Some(t) => Some(choose|x: OwnerKind| owner_kind_name(x) == t@),
        None => None,
    }
}

/// The first refusal about item `i` of the batch, in check order: a blank
/// title; a temp id repeated from an earlier item; a temp id that already names
/// an item of the project (`shadows`); a type, status or owner that does not
/// parse; an engaged status; `commit: true`; `ready` without acceptance.
pub open spec fn item_error(items: Seq<ImportItem>, i: int, shadows: bool) -> Option<Seq<char>> {
    let it = items[i];
    let p = item_prefix(i);
    let label = item_label(it, i);
    let st = parsed_status(it.status);
    if blank(it.title@) {
        Some(p + "title must not be empty"@)
    } else if it.id is Some && dup_before(items, i) {
        Some(p + "duplicate temp id "@ + debug_quoted_spec(it.id.unwrap()@))
    } else if it.id is Some && shadows {
        Some(p + "temp id "@ + debug_quoted_spec(it.id.unwrap()@) + " shadows an existing item"@)
    } else if !type_ok(it.node_type) {
        Some(p + node_type_parse_error(it.node_type.unwrap()@))
    } else if !status_ok(it.status) {
        Some(p + status_parse_error(it.status.unwrap()@))
    } else if !assign_ok(it.assign) {
        Some(p + owner_kind_parse_error(it.assign.unwrap()@))
    } else if engaged_spec(st) {
        Some(
            p + "cannot import item "@ + label + " born "@ + status_name(st)
                + " — bulk import must not mint items in an engaged state (in_progress/blocked/done); import at discovery/definition/ready and advance it afterwards"@,
        )
    } else if it.commit {
        Some(
            p + "cannot import item "@ + label
                + " with commit:true — bulk import must not mint committed items; import uncommitted and commit it afterwards"@,
        )
    } else if st == Status::Ready && acceptance_blank_spec(opt_string_view(it.done_looks_like)) {
        Some(
            p + "cannot import item "@ + label
                + " as ready without acceptance — set done_looks_like first"@,
        )
    } else {
        None
    }
}

/// The first refusal among the first `n` items.
pub open spec fn first_item_error(items: Seq<ImportItem>, shadows: Seq<bool>, n: int) -> Option<Seq<char>>
    decreases n,
{
    if n <= 0 {
        None
    } else {
        match first_item_error(items, shadows, n - 1) {
            Some(m) => Some(m),
            None => item_error(items, n - 1, shadows[n - 1]),
        }
    }
}

fn quoted_msg(pre: &str, x: &str, post: &str) -> (s: String)
    ensures
        s@ == pre@ + debug_quoted_spec(x@) + post@,
{
    let mut s = string_of(pre);
    let q = debug_quoted(x);
    push_str(&mut s, q.as_str());
    push_str(&mut s, post);
    s
}

fn prefix_of(i: usize) -> (s: String)
    ensures
        s@ == item_prefix(i as int),
{
    let mut s = string_of("items[");
    push_usize(&mut s, i);
    push_str(&mut s, "]: ");
    s
}

fn label_of(it: &ImportItem, i: usize) -> (s: String)
    ensures
        s@ == item_label(*it, i as int),
{
    match &it.id {
        Some(d) => debug_quoted(d.as_str()),
        None => {
            let mut s = string_of("index ");
            push_usize(&mut s, i);
            s
        },
    }
}

/// Whether an earlier item (before `i`) carries temp id `id`.
fn id_seen_before(items: &Vec<ImportItem>, i: usize, id: &str) -> (r: bool)
    requires
        i <= items.len(),
    ensures
        r == exists|j: int| 0 <= j < i && #[trigger] items@[j].id is Some && items@[j].id.unwrap()@ == id@,
{
    let mut j: usize = 0;
    while j < i
        invariant
            j <= i <= items.len(),
            forall|k: int| 0 <= k < j ==> !(#[trigger] items@[k].id is Some && items@[k].id.unwrap()@ == id@),
        decreases i - j,
    {
        match &items[j].id {
            Some(d) => {
                if str_eq(d.as_str(), id) {
                    assert(items@[j as int].id is Some && items@[j as int].id.unwrap()@ == id@);
                    return true;
                }
            },
            None => {},
        }
        j = j + 1;
    }
    false
}

/// Check item `i` of the batch and parse its enum fields.
fn check_item(items: &Vec<ImportItem>, i: usize, shadows: bool) -> (r: Result<ParsedAxes, HavenError>)
    requires
        i < items.len(),
    ensures
        match r {
            Ok(a) => item_error(items@, i as int, shadows) is None && a == (ParsedAxes {
                node_type: parsed_type(items@[i as int].node_type),
                status: parsed_status(items@[i as int].status),
                assign: parsed_assign(items@[i as int].assign),
            }),
            Err(e) => item_error(items@, i as int, shadows) matches Some(m) && invalid_with(e, m),
        },
{
    let it = &items[i];
    let p = prefix_of(i);
    if all_whitespace(it.title.as_str()) {
        let mut m = p;
        push_str(&mut m, "title must not be empty");
        return Err(HavenError::Invalid(m));
    }
    match &it.id {
        Some(d) => {
            if id_seen_before(items, i, d.as_str()) {
                let mut m = p;
                push_str(&mut m, "duplicate temp id ");
                let q = debug_quoted(d.as_str());
                push_str(&mut m, q.as_str());
                assert(items@[i as int].id.unwrap()@ == d@);
                assert(m@ =~= item_prefix(i as int) + "duplicate temp id "@ + debug_quoted_spec(d@));
                return Err(HavenError::Invalid(m));
            }
            if shadows {
                let mut m = p;
                let t = quoted_msg("temp id ", d.as_str(), " shadows an existing item");
                push_str(&mut m, t.as_str());
                assert(m@ =~= item_prefix(i as int) + "temp id "@ + debug_quoted_spec(d@) + " shadows an existing item"@);
                return Err(HavenError::Invalid(m));
            }
        },
        None => {},
    }
    let node_type = match &it.node_type {
        Some(t) => match NodeType::parse(t.as_str()) {
            Ok(x) => x,
            Err(e) => {
                let mut m = p;
                match e {
                    HavenError::Invalid(msg) => push_str(&mut m, msg.as_str()),
                    _ => {},
                }
                return Err(HavenError::Invalid(m));
            },
        },
        None => NodeType::Task,
    };
    let status = match &it.status {
        Some(t) => match Status::parse(t.as_str()) {
            Ok(x) => x,
            Err(e) => {
                let mut m = p;
                match e {
                    HavenError::Invalid(msg) => push_str(&mut m, msg.as_str()),
                    _ => {},
                }
                return Err(HavenError::Invalid(m));
            },
        },
        None => Status::Discovery,
    };
    let assign = match &it.assign {
        Some(t) => match OwnerKind::parse(t.as_str()) {
            Ok(x) => Some(x),
            Err(e) => {
                let mut m = p;
                match e {
                    HavenError::Invalid(msg) => push_str(&mut m, msg.as_str()),
                    _ => {},
                }
                return Err(HavenError::Invalid(m));
            },
        },
        None => None,
    };
    proof {
        if let Some(t) = items@[i as int].node_type {
            assert(node_type_name(node_type) == t@);
            assert(parsed_type(items@[i as int].node_type) == node_type) by {
                let c = choose|x: NodeType| node_type_name(x) == t@;
                lemma_node_type_name_injective(c, node_type);
            }
        }
        if let Some(t) = items@[i as int].status {
            assert(parsed_status(items@[i as int].status) == status) by {
                let c = choose|x: Status| status_name(x) == t@;
                lemma_status_name_injective(c, status);
            }
        }
        if let Some(t) = items@[i as int].assign {
            assert(parsed_assign(items@[i as int].assign) == assign) by {
                let c = choose|x: OwnerKind| owner_kind_name(x) == t@;
                lemma_owner_name_injective(c, assign.unwrap());
            }
        }
    }
    if engaged_status(status) {
        let mut m = p;
        push_str(&mut m, "cannot import item ");
        let l = label_of(it, i);
        push_str(&mut m, l.as_str());
        push_str(&mut m, " born ");
        push_str(&mut m, status.as_str());
        push_str(
            &mut m,
            " — bulk import must not mint items in an engaged state (in_progress/blocked/done); import at discovery/definition/ready and advance it afterwards",
        );
        return Err(HavenError::Invalid(m));
    }
    if it.commit {
        let mut m = p;
        push_str(&mut m, "cannot import item ");
        let l = label_of(it, i);
        push_str(&mut m, l.as_str());
        push_str(
            &mut m,
            " with commit:true — bulk import must not mint committed items; import uncommitted and commit it afterwards",
        );
        return Err(HavenError::Invalid(m));
    }
    let ready = match status {
        Status::Ready => true,
        _ => false,
    };
    if ready {
        let done = match &it.done_looks_like {
            Some(d) => Some(d.as_str()),
            None => None,
        };
        assert(opt_view(done) == opt_string_view(it.done_looks_like));
        if acceptance_blank(done) {
            let mut m = p;
            push_str(&mut m, "cannot import item ");
            let l = label_of(it, i);
            push_str(&mut m, l.as_str());
            push_str(&mut m, " as ready without acceptance — set done_looks_like first");
            return Err(HavenError::Invalid(m));
        }
    }
    Ok(ParsedAxes { node_type, status, assign })
}

proof fn lemma_node_type_name_injective(a: NodeType, b: NodeType)
    requires
        node_type_name(a) == node_type_name(b),
    ensures
        a == b,
{
    reveal_strlit("task");
    reveal_strlit("release");
    reveal_strlit("phase");
    reveal_strlit("gate");
    reveal_strlit("anchor");
    if a != b {
        match a {
            NodeType::Task => assert(node_type_name(a)[0] == 't' && node_type_name(a).len() == 4),
            NodeType::Release => assert(node_type_name(a).len() == 7),
            NodeType::Phase => assert(node_type_name(a)[0] == 'p'),
            NodeType::Gate => assert(node_type_name(a)[0] == 'g'),
            NodeType::Anchor => assert(node_type_name(a)[0] == 'a'),
        }
        match b {
            NodeType::Task => assert(node_type_name(b)[0] == 't' && node_type_name(b).len() == 4),
            NodeType::Release => assert(node_type_name(b).len() == 7),
            NodeType::Phase => assert(node_type_name(b)[0] == 'p'),
            NodeType::Gate => assert(node_type_name(b)[0] == 'g'),
            NodeType::Anchor => assert(node_type_name(b)[0] == 'a'),
        }
    }
}

/// A number that tells the status names apart: length and first letter.
spec fn status_fingerprint(x: Status) -> int {
    status_name(x).len() * 1000 + status_name(x)[0] as int
}

proof fn lemma_status_fingerprint(x: Status)
    ensures
        status_fingerprint(x) == match x {
            Status::Discovery => 9100int,
            Status::Definition => 10100,
            Status::Ready => 5114,
            Status::InProgress => 11105,
            Status::Blocked => 7098,
            Status::Done => 4100,
            Status::Superseded => 10115,
            Status::Archived => 8097,
        },
{
    reveal_strlit("discovery");
    reveal_strlit("definition");
    reveal_strlit("ready");
    reveal_strlit("in_progress");
    reveal_strlit("blocked");
    reveal_strlit("done");
    reveal_strlit("superseded");
    reveal_strlit("archived");
}

proof fn lemma_status_name_injective(a: Status, b: Status)
    requires
        status_name(a) == status_name(b),
    ensures
        a == b,
{
    lemma_status_fingerprint(a);
    lemma_status_fingerprint(b);
}

proof fn lemma_owner_name_injective(a: OwnerKind, b: OwnerKind)
    requires
        owner_kind_name(a) == owner_kind_name(b),
    ensures
        a == b,
{
    reveal_strlit("ai");
    reveal_strlit("human");
    match a {
        OwnerKind::Ai => assert(owner_kind_name(a).len() == 2),
        OwnerKind::Human => assert(owner_kind_name(a).len() == 5),
    }
    match b {
        OwnerKind::Ai => assert(owner_kind_name(b).len() == 2),
        OwnerKind::Human => assert(owner_kind_name(b).len() == 5),
    }
}

} // verus!

verus! {

// ---- edge targets -----------------------------------------------------------

/// The edge targets an item names: its parent, its dependencies, its group.
pub open spec fn targets_of(it: ImportItem) -> Seq<Seq<char>> {
    (match it.parent {
        Some(p) => seq![p@],
        None => Seq::empty(),
    }) + strings_view(it.depends_on@) + (match it.group {
        Some(g) => seq![g@],
        None => Seq::empty(),
    })
}

/// `t` is the temp id of some item of the batch.
pub open spec fn is_temp(items: Seq<ImportItem>, t: Seq<char>) -> bool {
    exists|j: int| 0 <= j < items.len() && #[trigger] items[j].id is Some && items[j].id.unwrap()@ == t
}

/// `t` names an existing item of the project.
pub open spec fn is_known(existing: Seq<(String, i64)>, t: Seq<char>) -> bool {
    exists|k: int| 0 <= k < existing.len() && #[trigger] existing[k].0@ == t
}

/// The first target of `ts` that is neither a temp id nor an existing item.
pub open spec fn first_bad_target(items: Seq<ImportItem>, existing: Seq<(String, i64)>, ts: Seq<Seq<char>>) -> Option<Seq<char>>
    decreases ts.len(),
{
    if ts.len() == 0 {
        None
    } else if !is_temp(items, ts[0]) && !is_known(existing, ts[0]) {
        Some(ts[0])
    } else {
        first_bad_target(items, existing, ts.drop_first())
    }
}

/// The refusal of item `i` for an edge target that resolves nowhere.
pub open spec fn target_error(items: Seq<ImportItem>, existing: Seq<(String, i64)>, i: int) -> Option<Seq<char>> {
    match first_bad_target(items, existing, targets_of(items[i])) {
        Some(t) => Some(
            item_prefix(i) + "edge target "@ + debug_quoted_spec(t)
                + " is neither a temp id in this file nor an existing item"@,
        ),
        None => None,
    }
}

/// The first edge-target refusal among the first `n` items.
pub open spec fn first_target_error(items: Seq<ImportItem>, existing: Seq<(String, i64)>, n: int) -> Option<Seq<char>>
    decreases n,
{
    if n <= 0 {
        None
    } else {
        match first_target_error(items, existing, n - 1) {
            Some(m) => Some(m),
            None => target_error(items, existing, n - 1),
        }
    }
}

/// Whether `t` is a temp id of the batch.
fn temp_index(items: &Vec<ImportItem>, t: &str) -> (r: Option<usize>)
    ensures
        match r {
            Some(j) => j < items.len() && items@[j as int].id is Some && items@[j as int].id.unwrap()@ == t@
                && forall|k: int| 0 <= k < j ==> !(#[trigger] items@[k].id is Some && items@[k].id.unwrap()@ == t@),
            None => !is_temp(items@, t@),
        },
{
    let mut j: usize = 0;
    while j < items.len()
        invariant
            j <= items.len(),
            forall|k: int| 0 <= k < j ==> !(#[trigger] items@[k].id is Some && items@[k].id.unwrap()@ == t@),
        decreases items.len() - j,
    {
        match &items[j].id {
            Some(d) => {
                if str_eq(d.as_str(), t) {
                    return Some(j);
                }
            },
            None => {},
        }
        j = j + 1;
    }
    None
}

/// Where `t` names an existing item: the first matching entry.
fn known_index(existing: &Vec<(String, i64)>, t: &str) -> (r: Option<usize>)
    ensures
        match r {
            Some(k) => k < existing.len() && existing@[k as int].0@ == t@
                && forall|m: int| 0 <= m < k ==> #[trigger] existing@[m].0@ != t@,
            None => !is_known(existing@, t@),
        },
{
    let mut k: usize = 0;
    while k < existing.len()
        invariant
            k <= existing.len(),
            forall|m: int| 0 <= m < k ==> #[trigger] existing@[m].0@ != t@,
        decreases existing.len() - k,
    {
        if str_eq(existing[k].0.as_str(), t) {
            return Some(k);
        }
        k = k + 1;
    }
    None
}

/// The edge targets of an item, in order.
fn targets_vec(it: &ImportItem) -> (r: Vec<String>)
    ensures
        strings_view(r@) == targets_of(*it),
{
    let mut r: Vec<String> = Vec::new();
    match &it.parent {
        Some(p) => r.push(p.clone()),
        None => {},
    }
    let ghost base = strings_view(r@);
    let mut i: usize = 0;
    while i < it.depends_on.len()
        invariant
            i <= it.depends_on.len(),
            strings_view(r@) == base + strings_view(it.depends_on@.take(i as int)),
        decreases it.depends_on.len() - i,
    {
        let ghost before = r@;
        r.push(it.depends_on[i].clone());
        proof {
            assert(r@ == before.push(it.depends_on@[i as int]));
            assert(it.depends_on@.take(i + 1) =~= it.depends_on@.take(i as int).push(it.depends_on@[i as int]));
            let x = it.depends_on@[i as int]@;
            assert(strings_view(r@) =~= strings_view(before).push(x));
            assert(strings_view(it.depends_on@.take(i + 1)) =~= strings_view(it.depends_on@.take(i as int)).push(x));
            assert(strings_view(r@) =~= base + strings_view(it.depends_on@.take(i + 1)));
        }
        i = i + 1;
    }
    assert(it.depends_on@.take(it.depends_on.len() as int) =~= it.depends_on@);
    let ghost mid = strings_view(r@);
    assert(mid == base + strings_view(it.depends_on@));
    match &it.group {
        Some(g) => {
            r.push(g.clone());
            assert(strings_view(r@) =~= mid.push(g@));
        },
        None => {},
    }
    proof {
        assert(strings_view(r@) =~= targets_of(*it));
    }
    r
}

/// Check every edge target of item `i`.
fn check_targets(items: &Vec<ImportItem>, existing: &Vec<(String, i64)>, i: usize) -> (r: Result<(), HavenError>)
    requires
        i < items.len(),
    ensures
        match r {
            Ok(()) => target_error(items@, existing@, i as int) is None,
            Err(e) => target_error(items@, existing@, i as int) matches Some(m) && invalid_with(e, m),
        },
{
    let ts = targets_vec(&items[i]);
    let ghost tv = strings_view(ts@);
    assert(tv.skip(0) =~= tv);
    let mut k: usize = 0;
    while k < ts.len()
        invariant
            k <= ts.len(),
            tv == strings_view(ts@),
            tv == targets_of(items@[i as int]),
            first_bad_target(items@, existing@, tv) == first_bad_target(items@, existing@, tv.skip(k as int)),
        decreases ts.len() - k,
    {
        let t = &ts[k];
        assert(tv.skip(k as int)[0] == t@);
        assert(tv.skip(k as int).drop_first() =~= tv.skip(k + 1));
        if temp_index(items, t.as_str()).is_none() && known_index(existing, t.as_str()).is_none() {
            let mut m = prefix_of(i);
            let q = quoted_msg("edge target ", t.as_str(), " is neither a temp id in this file nor an existing item");
            push_str(&mut m, q.as_str());
            assert(m@ =~= item_prefix(i as int) + "edge target "@ + debug_quoted_spec(t@)
                + " is neither a temp id in this file nor an existing item"@);
            return Err(HavenError::Invalid(m));
        }
        k = k + 1;
    }
    assert(tv.skip(k as int).len() == 0);
    Ok(())
}

/// The parsed axes of every item.
pub open spec fn axes_spec(it: ImportItem) -> ParsedAxes {
    ParsedAxes {
        node_type: parsed_type(it.node_type),
        status: parsed_status(it.status),
        assign: parsed_assign(it.assign),
    }
}

/// Validate a whole batch before any write: every item in order (see
/// [`item_error`]; `shadows[i]` says whether item `i`'s temp id already names an
/// item of the project), then every item's edge targets, which must be temp ids
/// of the batch or appear in `existing` (the targets that resolve in the
/// project, with their node ids). On success, each item's parsed enum fields.
pub fn validate_import(items: &Vec<ImportItem>, shadows: &Vec<bool>, existing: &Vec<(String, i64)>) -> (r: Result<Vec<ParsedAxes>, HavenError>)
    requires
        shadows.len() == items.len(),
    ensures
        match r {
            Ok(axes) => first_item_error(items@, shadows@, items.len() as int) is None
                && first_target_error(items@, existing@, items.len() as int) is None
                && axes.len() == items.len()
                && forall|i: int| 0 <= i < items.len() ==> #[trigger] axes@[i] == axes_spec(items@[i]),
            Err(e) => match first_item_error(items@, shadows@, items.len() as int) {
                Some(m) => invalid_with(e, m),
                None => first_target_error(items@, existing@, items.len() as int) matches Some(m)
                    && invalid_with(e, m),
            },
        },
        forall|i: int|
            0 <= i < items.len() && (parsed_status(#[trigger] items@[i].status) == Status::InProgress
                || parsed_status(items@[i].status) == Status::Blocked || parsed_status(
                items@[i].status,
            ) == Status::Done) ==> r is Err,
{
    let mut axes: Vec<ParsedAxes> = Vec::new();
    let mut i: usize = 0;
    while i < items.len()
        invariant
            i <= items.len(),
            shadows.len() == items.len(),
            first_item_error(items@, shadows@, i as int) is None,
            axes.len() == i,
            forall|j: int| 0 <= j < i ==> #[trigger] axes@[j] == axes_spec(items@[j]),
        decreases items.len() - i,
    {
        match check_item(items, i, shadows[i]) {
            Ok(a) => {
                axes.push(a);
            },
            Err(e) => {
                proof {
                    lemma_first_error_stays(items@, shadows@, i as int + 1, items.len() as int);
                }
                return Err(e);
            },
        }
        i = i + 1;
    }
    let mut i: usize = 0;
    while i < items.len()
        invariant
            i <= items.len(),
            shadows.len() == items.len(),
            first_item_error(items@, shadows@, items.len() as int) is None,
            first_target_error(items@, existing@, i as int) is None,
            axes.len() == items.len(),
            forall|j: int| 0 <= j < items.len() ==> #[trigger] axes@[j] == axes_spec(items@[j]),
        decreases items.len() - i,
    {
        match check_targets(items, existing, i) {
            Ok(()) => {},
            Err(e) => {
                proof {
                    lemma_first_target_stays(items@, existing@, i as int + 1, items.len() as int);
                }
                return Err(e);
            },
        }
        i = i + 1;
    }
    proof {
        assert forall|k: int| 0 <= k < items.len() implies !(parsed_status(#[trigger] items@[k].status)
            == Status::InProgress || parsed_status(items@[k].status) == Status::Blocked
            || parsed_status(items@[k].status) == Status::Done) by {
            if parsed_status(items@[k].status) == Status::InProgress || parsed_status(items@[k].status)
                == Status::Blocked || parsed_status(items@[k].status) == Status::Done {
                lemma_import_refuses_engaged_items(items@, shadows@, k);
            }
        }
    }
    Ok(axes)
}

/// Import never mints an item that is already under way or finished: a batch
/// that holds an item whose status parses to `in_progress`, `blocked` or `done`
/// is refused, with the first refusal among the batch's items.
pub proof fn lemma_import_refuses_engaged_items(items: Seq<ImportItem>, shadows: Seq<bool>, i: int)
    requires
        shadows.len() == items.len(),
        0 <= i < items.len(),
        parsed_status(items[i].status) == Status::InProgress || parsed_status(items[i].status)
            == Status::Blocked || parsed_status(items[i].status) == Status::Done,
    ensures
        item_error(items, i, shadows[i]) is Some,
        first_item_error(items, shadows, items.len() as int) is Some,
{
    assert(item_error(items, i, shadows[i]) is Some);
    assert(first_item_error(items, shadows, i + 1) is Some);
    lemma_first_error_stays(items, shadows, i + 1, items.len() as int);
}

proof fn lemma_first_error_stays(items: Seq<ImportItem>, shadows: Seq<bool>, a: int, b: int)
    requires
        0 <= a <= b,
        first_item_error(items, shadows, a) is Some,
    ensures
        first_item_error(items, shadows, b) == first_item_error(items, shadows, a),
    decreases b - a,
{
    if a < b {
        lemma_first_error_stays(items, shadows, a, b - 1);
    }
}

proof fn lemma_first_target_stays(items: Seq<ImportItem>, existing: Seq<(String, i64)>, a: int, b: int)
    requires
        0 <= a <= b,
        first_target_error(items, existing, a) is Some,
    ensures
        first_target_error(items, existing, b) == first_target_error(items, existing, a),
    decreases b - a,
{
    if a < b {
        lemma_first_target_stays(items, existing, a, b - 1);
    }
}

} // verus!

verus! {

// ---- the write plan ---------------------------------------------------------

/// What to do for one item of the batch.
#[derive(Debug, Clone, Copy, PartialEq, Eq, Structural)]
pub enum ImportAction {
    /// Insert a new node.
    Create,
    /// Reuse a live node of the project whose normalized title matches.
    Existing(i64),
    /// Reuse the node of an earlier batch item with the same normalized title.
    SameAs(usize),
}

/// One end of a planned edge: a batch item, or an existing node.
#[derive(Debug, Clone, Copy, PartialEq, Eq, Structural)]
pub enum EdgeEnd {
    Batch(usize),
    Node(i64),
}

/// One edge to write once every node exists.
#[derive(Debug, Clone, Copy, PartialEq, Eq, Structural)]
pub struct PlannedEdge {
    pub kind: EdgeKind,
    pub from: EdgeEnd,
    pub to: EdgeEnd,
}

/// The normalized title of item `i`.
pub open spec fn norm_of(items: Seq<ImportItem>, i: int) -> Seq<char> {
    normalize_title_spec(items[i].title@)
}

/// The first item from `j` on (before `i`) whose normalized title equals item `i`'s.
pub open spec fn first_norm_match(items: Seq<ImportItem>, i: int, j: int) -> Option<int>
    decreases i - j,
{
    if j >= i || j < 0 {
        None
    } else if norm_of(items, j) == norm_of(items, i) {
        Some(j)
    } else {
        first_norm_match(items, i, j + 1)
    }
}

/// The action for item `i`: with `if_absent` and a non-empty normalized title,
/// the first earlier batch item with the same title, else the live project item
/// that matches it (`live_match`), else a new node; without `if_absent`, a new node.
pub open spec fn action_spec(items: Seq<ImportItem>, live_match: Seq<Option<i64>>, if_absent: bool, i: int) -> ImportAction {
    if if_absent && norm_of(items, i).len() > 0 {
        match first_norm_match(items, i, 0) {
            Some(j) => ImportAction::SameAs(j as usize),
            None => match live_match[i] {
                Some(x) => ImportAction::Existing(x),
                None => ImportAction::Create,
            },
        }
    } else {
        ImportAction::Create
    }
}

/// Where an edge target resolves: the batch item carrying it as temp id, else
/// the first existing entry naming it.
pub open spec fn end_spec(items: Seq<ImportItem>, existing: Seq<(String, i64)>, t: Seq<char>) -> EdgeEnd {
    if is_temp(items, t) {
        EdgeEnd::Batch((choose|j: int| 0 <= j < items.len() && #[trigger] items[j].id is Some && items[j].id.unwrap()@ == t) as usize)
    } else {
        EdgeEnd::Node(existing[first_known(existing, t, 0)].1)
    }
}

/// The first entry of `existing` from `k` on that names `t`.
pub open spec fn first_known(existing: Seq<(String, i64)>, t: Seq<char>, k: int) -> int
    decreases existing.len() - k,
{
    if k < 0 || k >= existing.len() {
        k
    } else if existing[k].0@ == t {
        k
    } else {
        first_known(existing, t, k + 1)
    }
}

/// The edges item `i` asks for: decomposition from its parent, a dependency on
/// each prerequisite, grouping from its group.
pub open spec fn item_edges(items: Seq<ImportItem>, existing: Seq<(String, i64)>, i: int) -> Seq<PlannedEdge> {
    let it = items[i];
    let me = EdgeEnd::Batch(i as usize);
    (match it.parent {
        Some(p) => seq![PlannedEdge { kind: EdgeKind::Decomposition, from: end_spec(items, existing, p@), to: me }],
        None => Seq::empty(),
    }) + strings_view(it.depends_on@).map_values(
        |d: Seq<char>| PlannedEdge { kind: EdgeKind::Dependency, from: me, to: end_spec(items, existing, d) },
    ) + (match it.group {
        Some(g) => seq![PlannedEdge { kind: EdgeKind::Grouping, from: end_spec(items, existing, g@), to: me }],
        None => Seq::empty(),
    })
}

/// The edges of the first `n` items, in order.
pub open spec fn edges_upto(items: Seq<ImportItem>, existing: Seq<(String, i64)>, n: int) -> Seq<PlannedEdge>
    decreases n,
{
    if n <= 0 {
        Seq::empty()
    } else {
        edges_upto(items, existing, n - 1) + item_edges(items, existing, n - 1)
    }
}

proof fn lemma_first_known(existing: Seq<(String, i64)>, t: Seq<char>, k: int, at: int)
    requires
        0 <= k <= at < existing.len(),
        existing[at].0@ == t,
        forall|m: int| 0 <= m < at ==> #[trigger] existing[m].0@ != t,
    ensures
        first_known(existing, t, k) == at,
    decreases at - k,
{
    if k < at {
        lemma_first_known(existing, t, k + 1, at);
    }
}

/// Resolve an edge target that validation accepted.
fn resolve_end(items: &Vec<ImportItem>, existing: &Vec<(String, i64)>, t: &str) -> (r: EdgeEnd)
    requires
        is_temp(items@, t@) || is_known(existing@, t@),
        forall|a: int, b: int| 0 <= a < b < items.len() && #[trigger] items@[a].id is Some && #[trigger] items@[b].id is Some
            ==> items@[a].id.unwrap()@ != items@[b].id.unwrap()@,
    ensures
        r == end_spec(items@, existing@, t@),
{
    match temp_index(items, t) {
        Some(j) => {
            proof {
                let c = choose|c: int| 0 <= c < items.len() && #[trigger] items@[c].id is Some && items@[c].id.unwrap()@ == t@;
                if c != j {
                    if c < j {
                        assert(items@[c].id is Some && items@[c].id.unwrap()@ == t@);
                    } else {
                        assert(items@[j as int].id.unwrap()@ != items@[c].id.unwrap()@);
                    }
                }
            }
            EdgeEnd::Batch(j)
        },
        None => {
            let k = known_index(existing, t).unwrap();
            proof {
                lemma_first_known(existing@, t@, 0, k as int);
            }
            EdgeEnd::Node(existing[k].1)
        },
    }
}

} // verus!

verus! {

proof fn lemma_no_error_prefix(items: Seq<ImportItem>, shadows: Seq<bool>, n: int, i: int)
    requires
        0 <= i < n,
        first_item_error(items, shadows, n) is None,
    ensures
        item_error(items, i, shadows[i]) is None,
    decreases n,
{
    if i < n - 1 {
        lemma_no_error_prefix(items, shadows, n - 1, i);
    }
}

proof fn lemma_no_target_error_prefix(items: Seq<ImportItem>, existing: Seq<(String, i64)>, n: int, i: int)
    requires
        0 <= i < n,
        first_target_error(items, existing, n) is None,
    ensures
        target_error(items, existing, i) is None,
    decreases n,
{
    if i < n - 1 {
        lemma_no_target_error_prefix(items, existing, n - 1, i);
    }
}

proof fn lemma_targets_resolve(items: Seq<ImportItem>, existing: Seq<(String, i64)>, ts: Seq<Seq<char>>, k: int)
    requires
        first_bad_target(items, existing, ts) is None,
        0 <= k < ts.len(),
    ensures
        is_temp(items, ts[k]) || is_known(existing, ts[k]),
    decreases ts.len(),
{
    if k > 0 {
        lemma_targets_resolve(items, existing, ts.drop_first(), k - 1);
    }
}

/// Validate the batch and plan its writes: on success the parsed enum fields,
/// one action per item (see [`action_spec`]; `live_match[i]` is the first live
/// project item whose normalized title equals item `i`'s, looked up before the
/// batch is written) and every edge to wire, in item order, each end resolved
/// to a batch item or an existing node. Refusals are those of [`validate_import`].
pub fn plan_import(
    items: &Vec<ImportItem>,
    shadows: &Vec<bool>,
    existing: &Vec<(String, i64)>,
    live_match: &Vec<Option<i64>>,
    if_absent: bool,
) -> (r: Result<(Vec<ParsedAxes>, Vec<ImportAction>, Vec<PlannedEdge>), HavenError>)
    requires
        shadows.len() == items.len(),
        live_match.len() == items.len(),
    ensures
        match r {
            Ok((axes, actions, edges)) => first_item_error(items@, shadows@, items.len() as int) is None
                && first_target_error(items@, existing@, items.len() as int) is None
                && axes.len() == items.len() && actions.len() == items.len()
                && (forall|i: int| 0 <= i < items.len() ==> #[trigger] axes@[i] == axes_spec(items@[i]))
                && (forall|i: int| 0 <= i < items.len() ==> #[trigger] actions@[i] == action_spec(items@, live_match@, if_absent, i))
                && edges@ == edges_upto(items@, existing@, items.len() as int),
            Err(e) => match first_item_error(items@, shadows@, items.len() as int) {
                Some(m) => invalid_with(e, m),
                None => first_target_error(items@, existing@, items.len() as int) matches Some(m)
                    && invalid_with(e, m),
            },
        },
        forall|i: int|
            0 <= i < items.len() && (parsed_status(#[trigger] items@[i].status) == Status::InProgress
                || parsed_status(items@[i].status) == Status::Blocked || parsed_status(
                items@[i].status,
            ) == Status::Done) ==> r is Err,
{
    let axes = match validate_import(items, shadows, existing) {
        Ok(a) => a,
        Err(e) => return Err(e),
    };
    proof {
        assert forall|a: int, b: int| 0 <= a < b < items.len() && #[trigger] items@[a].id is Some && #[trigger] items@[b].id is Some
            implies items@[a].id.unwrap()@ != items@[b].id.unwrap()@ by {
            lemma_no_error_prefix(items@, shadows@, items.len() as int, b);
            if items@[a].id.unwrap()@ == items@[b].id.unwrap()@ {
                assert(dup_before(items@, b));
            }
        }
    }
    let mut norms: Vec<String> = Vec::new();
    let mut i: usize = 0;
    while i < items.len()
        invariant
            i <= items.len(),
            norms.len() == i,
            forall|j: int| 0 <= j < i ==> #[trigger] norms@[j]@ == norm_of(items@, j),
        decreases items.len() - i,
    {
        norms.push(normalize_title(items[i].title.as_str()));
        i = i + 1;
    }
    let mut actions: Vec<ImportAction> = Vec::new();
    let mut i: usize = 0;
    while i < items.len()
        invariant
            i <= items.len(),
            norms.len() == items.len(),
            live_match.len() == items.len(),
            forall|j: int| 0 <= j < items.len() ==> #[trigger] norms@[j]@ == norm_of(items@, j),
            actions.len() == i,
            forall|j: int| 0 <= j < i ==> #[trigger] actions@[j] == action_spec(items@, live_match@, if_absent, j),
        decreases items.len() - i,
    {
        let a = action_for(&norms, Ghost(items@), live_match, if_absent, i);
        actions.push(a);
        i = i + 1;
    }
    let mut edges: Vec<PlannedEdge> = Vec::new();
    let mut i: usize = 0;
    while i < items.len()
        invariant
            i <= items.len(),
            first_target_error(items@, existing@, items.len() as int) is None,
            forall|a: int, b: int| 0 <= a < b < items.len() && #[trigger] items@[a].id is Some && #[trigger] items@[b].id is Some
                ==> items@[a].id.unwrap()@ != items@[b].id.unwrap()@,
            edges@ == edges_upto(items@, existing@, i as int),
        decreases items.len() - i,
    {
        proof {
            lemma_no_target_error_prefix(items@, existing@, items.len() as int, i as int);
        }
        let mut mine = edges_for(items, existing, i);
        edges.append(&mut mine);
        i = i + 1;
    }
    Ok((axes, actions, edges))
}

/// The action for item `i`, from the normalized titles.
fn action_for(
    norms: &Vec<String>,
    Ghost(items): Ghost<Seq<ImportItem>>,
    live_match: &Vec<Option<i64>>,
    if_absent: bool,
    i: usize,
) -> (a: ImportAction)
    requires
        i < items.len(),
        norms.len() == items.len(),
        live_match.len() == items.len(),
        forall|j: int| 0 <= j < items.len() ==> #[trigger] norms@[j]@ == norm_of(items, j),
    ensures
        a == action_spec(items, live_match@, if_absent, i as int),
{
    assert(norms@[i as int]@ == norm_of(items, i as int));
    if !if_absent || crate::text::chars_of(norms[i].as_str()).len() == 0 {
        return ImportAction::Create;
    }
    let mut j: usize = 0;
    while j < i
        invariant
            j <= i < items.len(),
            norms.len() == items.len(),
            forall|k: int| 0 <= k < items.len() ==> #[trigger] norms@[k]@ == norm_of(items, k),
            first_norm_match(items, i as int, 0) == first_norm_match(items, i as int, j as int),
            if_absent,
            norm_of(items, i as int).len() > 0,
        decreases i - j,
    {
        if str_eq(norms[j].as_str(), norms[i].as_str()) {
            assert(norms@[j as int]@ == norm_of(items, j as int));
            return ImportAction::SameAs(j);
        }
        assert(norms@[j as int]@ == norm_of(items, j as int));
        j = j + 1;
    }
    match live_match[i] {
        Some(x) => ImportAction::Existing(x),
        None => ImportAction::Create,
    }
}

/// The edges item `i` asks for, each end resolved.
fn edges_for(items: &Vec<ImportItem>, existing: &Vec<(String, i64)>, i: usize) -> (r: Vec<PlannedEdge>)
    requires
        i < items.len(),
        target_error(items@, existing@, i as int) is None,
        forall|a: int, b: int| 0 <= a < b < items.len() && #[trigger] items@[a].id is Some && #[trigger] items@[b].id is Some
            ==> items@[a].id.unwrap()@ != items@[b].id.unwrap()@,
    ensures
        r@ == item_edges(items@, existing@, i as int),
{
    let it = &items[i];
    let ghost ts = targets_of(*it);
    assert(first_bad_target(items@, existing@, ts) is None);
    let me = EdgeEnd::Batch(i);
    let mut out: Vec<PlannedEdge> = Vec::new();
    let ghost head: Seq<PlannedEdge> = match items@[i as int].parent {
        Some(p) => seq![PlannedEdge { kind: EdgeKind::Decomposition, from: end_spec(items@, existing@, p@), to: me }],
        None => Seq::empty(),
    };
    match &it.parent {
        Some(p) => {
            proof {
                lemma_targets_resolve(items@, existing@, ts, 0);
            }
            let from = resolve_end(items, existing, p.as_str());
            out.push(PlannedEdge { kind: EdgeKind::Decomposition, from, to: me });
        },
        None => {},
    }
    assert(out@ =~= head);
    let off: usize = if it.parent.is_some() { 1 } else { 0 };
    let ghost deps = strings_view(it.depends_on@);
    let ghost df = |d: Seq<char>| PlannedEdge { kind: EdgeKind::Dependency, from: me, to: end_spec(items@, existing@, d) };
    let mut k: usize = 0;
    while k < it.depends_on.len()
        invariant
            k <= it.depends_on.len(),
            it == &items@[i as int],
            ts == targets_of(*it),
            first_bad_target(items@, existing@, ts) is None,
            forall|a: int, b: int| 0 <= a < b < items.len() && #[trigger] items@[a].id is Some && #[trigger] items@[b].id is Some
                ==> items@[a].id.unwrap()@ != items@[b].id.unwrap()@,
            deps == strings_view(it.depends_on@),
            off as int == (if it.parent is Some { 1int } else { 0int }),
            df == (|d: Seq<char>| PlannedEdge { kind: EdgeKind::Dependency, from: me, to: end_spec(items@, existing@, d) }),
            me == EdgeEnd::Batch(i),
            out@ == head + deps.take(k as int).map_values(df),
        decreases it.depends_on.len() - k,
    {
        proof {
            assert(ts[off + k] == deps[k as int]);
            lemma_targets_resolve(items@, existing@, ts, off + k);
        }
        let to = resolve_end(items, existing, it.depends_on[k].as_str());
        let ghost before = out@;
        out.push(PlannedEdge { kind: EdgeKind::Dependency, from: me, to });
        proof {
            assert(deps.take(k + 1) =~= deps.take(k as int).push(deps[k as int]));
            assert(out@ =~= head + deps.take(k + 1).map_values(df));
        }
        k = k + 1;
    }
    assert(deps.take(it.depends_on.len() as int) =~= deps);
    let ghost mid = out@;
    match &it.group {
        Some(g) => {
            proof {
                assert(ts[ts.len() - 1] == g@);
                lemma_targets_resolve(items@, existing@, ts, ts.len() - 1);
            }
            let from = resolve_end(items, existing, g.as_str());
            out.push(PlannedEdge { kind: EdgeKind::Grouping, from, to: me });
        },
        None => {},
    }
    assert(out@ =~= item_edges(items@, existing@, i as int));
    out
}

// ---- results ----------------------------------------------------------------

/// One import result, in input order: the temp id echoed back, the item, and
/// whether it was an existing item reused instead of a create.
#[derive(Debug)]
pub struct ImportOutcome {
    pub id: Option<String>,
    pub item: Item,
    pub existing: bool,
}

} // verus!
