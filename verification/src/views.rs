//! Item list views: the filter of `item list` and the query it runs, the
//! `--if-absent` title match over live items, and the rendered backlog file.

use vstd::prelude::*;
use crate::item::{normalize_title, normalize_title_spec};
use crate::model::{
    node_type_name, owner_kind_name, status_name, wait_state_name, NodeType, OwnerKind, Status,
    WaitState,
};
use crate::query::ORDER;
use crate::text::{int_decimal, nat_digits, push_i64, push_str, push_usize, str_eq, string_of, strings_view};

verus! {

// ---- the list filter --------------------------------------------------------

/// The filters of `item list`; all default to "no constraint", and the list is
/// live-only unless `include_dead` is set.
#[derive(Debug, Clone, Default)]
pub struct ItemFilter {
    pub status: Option<Status>,
    pub node_type: Option<NodeType>,
    pub owner: Option<OwnerKind>,
    pub committed: Option<bool>,
    /// The icebox view: uncommitted and not archived or superseded.
    pub icebox: bool,
    /// The inbox view: the icebox without acceptance yet.
    pub inbox: bool,
    /// Members of this group (a selector, resolved by the caller).
    pub group: Option<String>,
    pub wait: Option<WaitState>,
    /// Untouched for at least this many days.
    pub stale_days: Option<i64>,
    /// Include archived and superseded items; ignored when a status is asked
    /// for by name and in the icebox and inbox views, which exclude them.
    pub include_dead: bool,
}

/// A bound query parameter.
#[derive(Debug, Clone, PartialEq, Eq)]
pub enum SqlArg {
    Int(i64),
    Text(String),
}

/// The dead-item exclusion.
pub open spec fn live_clause() -> Seq<char> {
    " AND n.status NOT IN ('archived','superseded')"@
}

/// Whether the default live-only exclusion applies.
pub open spec fn live_only_applies(f: ItemFilter) -> bool {
    !f.include_dead && f.status is None && !f.icebox && !f.inbox
}

/// A parameter as plain values: `(is text, integer, text)`.
pub open spec fn arg_view(a: SqlArg) -> (bool, int, Seq<char>) {
    match a {
        SqlArg::Int(i) => (false, i as int, Seq::empty()),
        SqlArg::Text(t) => (true, 0, t@),
    }
}

/// A text parameter as plain values.
pub open spec fn text_arg(t: Seq<char>) -> (bool, int, Seq<char>) {
    (true, 0, t)
}

/// An integer parameter as plain values.
pub open spec fn int_arg(i: int) -> (bool, int, Seq<char>) {
    (false, i, Seq::empty())
}

/// An optional parameter as a sequence of at most one.
pub open spec fn opt_arg(o: Option<(bool, int, Seq<char>)>) -> Seq<(bool, int, Seq<char>)> {
    match o {
        Some(a) => seq![a],
        None => Seq::empty(),
    }
}

/// The number of a parameter bound after `n` earlier filter parameters.
pub open spec fn slot(n: int) -> int {
    n + 2
}

/// The query tail of `item list`: the project's clause, each filter that is
/// set (parameters numbered in binding order, `?1` being the project), then
/// the ranking.
pub open spec fn query_text(f: ItemFilter, group_id: Option<i64>) -> Seq<char> {
    let n1 = if f.status is Some { 1int } else { 0 };
    let n2 = n1 + if f.node_type is Some { 1int } else { 0 };
    let n3 = n2 + if f.owner is Some { 1int } else { 0 };
    let n4 = n3 + if f.committed is Some { 1int } else { 0 };
    let n5 = n4 + if f.wait is Some { 1int } else { 0 };
    let n6 = n5 + if f.stale_days is Some { 1int } else { 0 };
    " WHERE n.project_id = ?1"@
        + numbered(f.status is Some, " AND n.status = ?"@, slot(0), ""@)
        + (if live_only_applies(f) { live_clause() } else { Seq::empty() })
        + numbered(f.node_type is Some, " AND n.type = ?"@, slot(n1), ""@)
        + numbered(f.owner is Some, " AND n.owner_kind = ?"@, slot(n2), ""@)
        + numbered(f.committed is Some, " AND n.committed = ?"@, slot(n3), ""@)
        + (if f.icebox { icebox_clause() } else { Seq::empty() })
        + (if f.inbox { inbox_clause() } else { Seq::empty() })
        + numbered(f.wait is Some, " AND n.wait_state = ?"@, slot(n4), ""@)
        + numbered(f.stale_days is Some, " AND n.type <> 'anchor' AND n.updated_at < datetime('now', ?"@, slot(n5), ")"@)
        + numbered(group_id is Some, " AND n.id IN (SELECT member_id FROM grouping_edges WHERE group_id = ?"@, slot(n6), ")"@)
        + ORDER@
}

/// A clause that binds parameter `k`, when present.
pub open spec fn numbered(present: bool, clause: Seq<char>, k: int, close: Seq<char>) -> Seq<char> {
    if present {
        clause + nat_digits(k as nat) + close
    } else {
        Seq::empty()
    }
}

/// The icebox view's clauses.
pub open spec fn icebox_clause() -> Seq<char> {
    " AND n.committed = 0 AND n.status NOT IN ('archived','superseded')"@
}

/// The inbox view's clauses.
pub open spec fn inbox_clause() -> Seq<char> {
    " AND n.committed = 0 AND n.status NOT IN ('archived','superseded') AND n.done_looks_like IS NULL"@
}

/// The parameters of `item list`, in binding order, as plain values.
pub open spec fn query_args(project_id: i64, f: ItemFilter, group_id: Option<i64>) -> Seq<(bool, int, Seq<char>)> {
    seq![int_arg(project_id as int)]
        + opt_arg(match f.status { Some(s) => Some(text_arg(status_name(s))), None => None })
        + opt_arg(match f.node_type { Some(t) => Some(text_arg(node_type_name(t))), None => None })
        + opt_arg(match f.owner { Some(o) => Some(text_arg(owner_kind_name(o))), None => None })
        + opt_arg(match f.committed { Some(c) => Some(int_arg(if c { 1 } else { 0 })), None => None })
        + opt_arg(match f.wait { Some(w) => Some(text_arg(wait_state_name(w))), None => None })
        + opt_arg(match f.stale_days { Some(d) => Some(text_arg(stale_bound(d as int))), None => None })
        + opt_arg(match group_id { Some(g) => Some(int_arg(g as int)), None => None })
}

/// The staleness bound, `-N days`.
pub open spec fn stale_bound(d: int) -> Seq<char> {
    "-"@ + int_decimal(d) + " days"@
}

/// The plain values of bound parameters.
pub open spec fn arg_views(args: Seq<SqlArg>) -> Seq<(bool, int, Seq<char>)> {
    args.map_values(|a: SqlArg| arg_view(a))
}

/// The plain value of an optional parameter.
pub open spec fn opt_view(a: Option<SqlArg>) -> Option<(bool, int, Seq<char>)> {
    match a {
        Some(x) => Some(arg_view(x)),
        None => None,
    }
}

/// Append a numbered clause for `a` (numbered after the parameters already
/// bound) and bind it; nothing when there is no parameter.
fn add_param(sql: &mut String, args: &mut Vec<SqlArg>, a: Option<SqlArg>, clause: &str, close: &str)
    requires
        old(args).len() < 1000,
    ensures
        final(sql)@ == old(sql)@ + numbered(a is Some, clause@, old(args).len() + 1, close@),
        arg_views(final(args)@) == arg_views(old(args)@) + opt_arg(opt_view(a)),
        final(args)@.len() == old(args)@.len() + (if a is Some { 1int } else { 0 }),
{
    let ghost before = args@;
    match a {
        Some(x) => {
            push_str(sql, clause);
            push_usize(sql, args.len() + 1);
            push_str(sql, close);
            args.push(x);
            assert(arg_views(args@) =~= arg_views(before) + opt_arg(opt_view(a)));
        },
        None => {
            assert(old(sql)@ + Seq::<char>::empty() =~= old(sql)@);
            assert(arg_views(args@) =~= arg_views(before) + opt_arg(opt_view(a)));
        },
    }
}

/// Append `text` when `cond` holds.
fn add_text_if(sql: &mut String, cond: bool, text: &str)
    ensures
        final(sql)@ == old(sql)@ + (if cond { text@ } else { Seq::empty() }),
{
    if cond {
        push_str(sql, text);
    } else {
        assert(old(sql)@ + Seq::<char>::empty() =~= old(sql)@);
    }
}

/// A wire name as a text parameter.
fn text_param(name: &str) -> (r: SqlArg)
    ensures
        arg_view(r) == text_arg(name@),
{
    SqlArg::Text(string_of(name))
}

fn status_param(o: Option<Status>) -> (r: Option<SqlArg>)
    ensures
        opt_view(r) == (match o { Some(x) => Some(text_arg(status_name(x))), None => None }),
{
    match o {
        Some(x) => Some(text_param(x.as_str())),
        None => None,
    }
}

fn type_param(o: Option<NodeType>) -> (r: Option<SqlArg>)
    ensures
        opt_view(r) == (match o { Some(x) => Some(text_arg(node_type_name(x))), None => None }),
{
    match o {
        Some(x) => Some(text_param(x.as_str())),
        None => None,
    }
}

fn owner_param(o: Option<OwnerKind>) -> (r: Option<SqlArg>)
    ensures
        opt_view(r) == (match o { Some(x) => Some(text_arg(owner_kind_name(x))), None => None }),
{
    match o {
        Some(x) => Some(text_param(x.as_str())),
        None => None,
    }
}

fn committed_param(o: Option<bool>) -> (r: Option<SqlArg>)
    ensures
        opt_view(r) == (match o { Some(c) => Some(int_arg(if c { 1 } else { 0 })), None => None }),
{
    match o {
        Some(c) => Some(SqlArg::Int(if c { 1 } else { 0 })),
        None => None,
    }
}

fn wait_param(o: Option<WaitState>) -> (r: Option<SqlArg>)
    ensures
        opt_view(r) == (match o { Some(x) => Some(text_arg(wait_state_name(x))), None => None }),
{
    match o {
        Some(x) => Some(text_param(x.as_str())),
        None => None,
    }
}

fn stale_param(o: Option<i64>) -> (r: Option<SqlArg>)
    ensures
        opt_view(r) == (match o { Some(d) => Some(text_arg(stale_bound(d as int))), None => None }),
{
    match o {
        Some(d) => {
            let mut t = string_of("-");
            push_i64(&mut t, d);
            push_str(&mut t, " days");
            Some(SqlArg::Text(t))
        },
        None => None,
    }
}

fn group_param(o: Option<i64>) -> (r: Option<SqlArg>)
    ensures
        opt_view(r) == (match o { Some(g) => Some(int_arg(g as int)), None => None }),
{
    match o {
        Some(g) => Some(SqlArg::Int(g)),
        None => None,
    }
}

/// Build the query tail of `item list` for a project, with the parameters to
/// bind. `group_id` is the node the filter's group selector resolved to.
/// Without `include_dead`, archived and superseded items are left out, except
/// when a status is asked for by name or the icebox or inbox view (which
/// exclude them anyway) is on.
pub fn list_items_query(project_id: i64, f: &ItemFilter, group_id: Option<i64>) -> (r: (String, Vec<SqlArg>))
    ensures
        r.0@ == query_text(*f, group_id),
        arg_views(r.1@) == query_args(project_id, *f, group_id),
{
    let mut sql = string_of(" WHERE n.project_id = ?1");
    let mut args: Vec<SqlArg> = Vec::new();
    args.push(SqlArg::Int(project_id));
    assert(arg_views(args@) =~= seq![int_arg(project_id as int)]);
    add_param(&mut sql, &mut args, status_param(f.status), " AND n.status = ?", "");
    let live = !f.include_dead && f.status.is_none() && !f.icebox && !f.inbox;
    add_text_if(&mut sql, live, " AND n.status NOT IN ('archived','superseded')");
    add_param(&mut sql, &mut args, type_param(f.node_type), " AND n.type = ?", "");
    add_param(&mut sql, &mut args, owner_param(f.owner), " AND n.owner_kind = ?", "");
    add_param(&mut sql, &mut args, committed_param(f.committed), " AND n.committed = ?", "");
    add_text_if(&mut sql, f.icebox, " AND n.committed = 0 AND n.status NOT IN ('archived','superseded')");
    add_text_if(
        &mut sql,
        f.inbox,
        " AND n.committed = 0 AND n.status NOT IN ('archived','superseded') AND n.done_looks_like IS NULL",
    );
    add_param(&mut sql, &mut args, wait_param(f.wait), " AND n.wait_state = ?", "");
    add_param(
        &mut sql,
        &mut args,
        stale_param(f.stale_days),
        " AND n.type <> 'anchor' AND n.updated_at < datetime('now', ?",
        ")",
    );
    add_param(
        &mut sql,
        &mut args,
        group_param(group_id),
        " AND n.id IN (SELECT member_id FROM grouping_edges WHERE group_id = ?",
        ")",
    );
    push_str(&mut sql, ORDER);
    (sql, args)
}

// ---- the dispatch frontier ------------------------------------------------------

/// The queue predicates of `next` and of its explanation.
#[derive(Debug, Clone, Copy, PartialEq, Eq, Structural)]
pub enum Frontier {
    /// Committed, ready, not an anchor, not waiting, no open dependency.
    Dispatchable,
    /// Committed and ready but waiting on someone or something.
    Waiting,
    /// Committed, ready, not waiting, but with an open dependency.
    BlockedByDependency,
    /// Committed but not ready (and not finished or dead).
    CommittedNotReady,
    /// Ready but not committed.
    ReadyButUncommitted,
}

/// The SQL condition of each queue predicate over nodes `n`.
pub open spec fn frontier_spec(p: Frontier) -> Seq<char> {
    match p {
        Frontier::Dispatchable => "n.committed = 1 AND n.status = 'ready' AND n.type <> 'anchor' AND n.wait_state IS NULL AND NOT EXISTS (SELECT 1 FROM dependency_edges d JOIN nodes p ON p.id = d.depends_on_id WHERE d.node_id = n.id AND p.status NOT IN ('done','superseded','archived'))"@,
        Frontier::Waiting => "n.type <> 'anchor' AND n.committed = 1 AND n.status = 'ready' AND n.wait_state IS NOT NULL"@,
        Frontier::BlockedByDependency => "n.type <> 'anchor' AND n.committed = 1 AND n.status = 'ready' AND n.wait_state IS NULL AND EXISTS (SELECT 1 FROM dependency_edges d JOIN nodes p ON p.id = d.depends_on_id WHERE d.node_id = n.id AND p.status NOT IN ('done','superseded','archived'))"@,
        Frontier::CommittedNotReady => "n.type <> 'anchor' AND n.committed = 1 AND n.status NOT IN ('ready','done','superseded','archived')"@,
        Frontier::ReadyButUncommitted => "n.type <> 'anchor' AND n.committed = 0 AND n.status = 'ready'"@,
    }
}

/// The SQL condition of a queue predicate.
pub fn frontier_condition(p: Frontier) -> (r: &'static str)
    ensures
        r@ == frontier_spec(p),
{
    match p {
        Frontier::Dispatchable => "n.committed = 1 AND n.status = 'ready' AND n.type <> 'anchor' AND n.wait_state IS NULL AND NOT EXISTS (SELECT 1 FROM dependency_edges d JOIN nodes p ON p.id = d.depends_on_id WHERE d.node_id = n.id AND p.status NOT IN ('done','superseded','archived'))",
        Frontier::Waiting => "n.type <> 'anchor' AND n.committed = 1 AND n.status = 'ready' AND n.wait_state IS NOT NULL",
        Frontier::BlockedByDependency => "n.type <> 'anchor' AND n.committed = 1 AND n.status = 'ready' AND n.wait_state IS NULL AND EXISTS (SELECT 1 FROM dependency_edges d JOIN nodes p ON p.id = d.depends_on_id WHERE d.node_id = n.id AND p.status NOT IN ('done','superseded','archived'))",
        Frontier::CommittedNotReady => "n.type <> 'anchor' AND n.committed = 1 AND n.status NOT IN ('ready','done','superseded','archived')",
        Frontier::ReadyButUncommitted => "n.type <> 'anchor' AND n.committed = 0 AND n.status = 'ready'",
    }
}

/// The scope restriction bound as parameter `k`: strict descendants of the
/// scope node through decomposition and grouping.
pub open spec fn scope_clause(k: int) -> Seq<char> {
    " AND n.id IN (WITH RECURSIVE sub(id) AS (SELECT ?"@ + nat_digits(k as nat)
        + " UNION SELECT e.child_id FROM decomposition_edges e JOIN sub ON e.parent_id = sub.id UNION SELECT e.member_id FROM grouping_edges e JOIN sub ON e.group_id = sub.id) SELECT id FROM sub WHERE id <> ?"@
        + nat_digits(k as nat) + ")"@
}

/// The condition shared by the queue and every count explaining it: the
/// project (`?1`), the predicate, the owner (the assignment axis, so an
/// unassigned item never matches an owner) and the scope.
pub open spec fn frontier_where(p: Frontier, owner: Option<OwnerKind>, scope: Option<i64>) -> Seq<char> {
    " WHERE n.project_id = ?1 AND "@ + frontier_spec(p) + numbered(owner is Some, " AND n.owner_kind = ?"@, 2, ""@)
        + (if scope is Some {
        scope_clause(if owner is Some { 3 } else { 2 })
    } else {
        Seq::empty()
    })
}

/// The parameters of the shared condition, in binding order.
pub open spec fn frontier_args(project_id: i64, owner: Option<OwnerKind>, scope: Option<i64>) -> Seq<
    (bool, int, Seq<char>),
> {
    seq![int_arg(project_id as int)] + opt_arg(
        match owner {
            Some(o) => Some(text_arg(owner_kind_name(o))),
            None => None,
        },
    ) + opt_arg(
        match scope {
            Some(s) => Some(int_arg(s as int)),
            None => None,
        },
    )
}

/// Build the shared condition of a queue predicate and its parameters.
fn frontier_filter(project_id: i64, p: Frontier, owner: Option<OwnerKind>, scope: Option<i64>) -> (r: (
    String,
    Vec<SqlArg>,
))
    ensures
        r.0@ == frontier_where(p, owner, scope),
        arg_views(r.1@) == frontier_args(project_id, owner, scope),
        r.1@.len() == 1 + (if owner is Some { 1int } else { 0 }) + (if scope is Some { 1int } else { 0 }),
{
    let mut sql = string_of(" WHERE n.project_id = ?1 AND ");
    push_str(&mut sql, frontier_condition(p));
    let mut args: Vec<SqlArg> = Vec::new();
    args.push(SqlArg::Int(project_id));
    assert(arg_views(args@) =~= seq![int_arg(project_id as int)]);
    add_param(&mut sql, &mut args, owner_param(owner), " AND n.owner_kind = ?", "");
    match scope {
        Some(s) => {
            let k = args.len() + 1;
            let ghost before = args@;
            push_str(&mut sql, " AND n.id IN (WITH RECURSIVE sub(id) AS (SELECT ?");
            push_usize(&mut sql, k);
            push_str(
                &mut sql,
                " UNION SELECT e.child_id FROM decomposition_edges e JOIN sub ON e.parent_id = sub.id UNION SELECT e.member_id FROM grouping_edges e JOIN sub ON e.group_id = sub.id) SELECT id FROM sub WHERE id <> ?",
            );
            push_usize(&mut sql, k);
            push_str(&mut sql, ")");
            args.push(SqlArg::Int(s));
            assert(arg_views(args@) =~= arg_views(before) + seq![int_arg(s as int)]);
        },
        None => {
            assert(arg_views(args@) + Seq::<(bool, int, Seq<char>)>::empty() =~= arg_views(args@));
        },
    }
    (sql, args)
}

/// The query tail of `next`: the dispatchable frontier of the project for the
/// owner and scope, ranked, and at most `limit` long.
pub open spec fn next_query_text(owner: Option<OwnerKind>, limit: Option<i64>, scope: Option<i64>) -> Seq<char> {
    frontier_where(Frontier::Dispatchable, owner, scope) + ORDER@ + numbered(
        limit is Some,
        " LIMIT ?"@,
        2 + (if owner is Some { 1int } else { 0 }) + (if scope is Some { 1int } else { 0 }),
        ""@,
    )
}

/// Build the query tail of `next` with its parameters.
pub fn next_query(project_id: i64, owner: Option<OwnerKind>, limit: Option<i64>, scope: Option<i64>) -> (r: (
    String,
    Vec<SqlArg>,
))
    ensures
        r.0@ == next_query_text(owner, limit, scope),
        arg_views(r.1@) == frontier_args(project_id, owner, scope) + opt_arg(
            match limit {
                Some(l) => Some(int_arg(l as int)),
                None => None,
            },
        ),
{
    let (mut sql, mut args) = frontier_filter(project_id, Frontier::Dispatchable, owner, scope);
    push_str(&mut sql, ORDER);
    add_param(&mut sql, &mut args, group_param(limit), " LIMIT ?", "");
    (sql, args)
}

/// The count query of a queue predicate, over the same project, owner and scope.
pub open spec fn count_query_text(p: Frontier, owner: Option<OwnerKind>, scope: Option<i64>) -> Seq<char> {
    "SELECT count(*) FROM nodes n"@ + frontier_where(p, owner, scope)
}

/// Build the count query of a queue predicate with its parameters.
pub fn count_query(project_id: i64, p: Frontier, owner: Option<OwnerKind>, scope: Option<i64>) -> (r: (
    String,
    Vec<SqlArg>,
))
    ensures
        r.0@ == count_query_text(p, owner, scope),
        arg_views(r.1@) == frontier_args(project_id, owner, scope),
{
    let (tail, args) = frontier_filter(project_id, p, owner, scope);
    let mut sql = string_of("SELECT count(*) FROM nodes n");
    push_str(&mut sql, tail.as_str());
    (sql, args)
}

/// The explanation counts what the queue serves: the dispatchable count runs
/// over exactly the condition and parameters `next` ranks, for every owner and
/// scope, before `next` adds its order and limit.
pub proof fn lemma_explain_counts_the_queue(
    project_id: i64,
    owner: Option<OwnerKind>,
    limit: Option<i64>,
    scope: Option<i64>,
)
    ensures
        count_query_text(Frontier::Dispatchable, owner, scope) == "SELECT count(*) FROM nodes n"@
            + frontier_where(Frontier::Dispatchable, owner, scope),
        next_query_text(owner, limit, scope).subrange(
            0,
            frontier_where(Frontier::Dispatchable, owner, scope).len() as int,
        ) == frontier_where(Frontier::Dispatchable, owner, scope),
{
    let w = frontier_where(Frontier::Dispatchable, owner, scope);
    let rest = ORDER@ + numbered(
        limit is Some,
        " LIMIT ?"@,
        2 + (if owner is Some { 1int } else { 0 }) + (if scope is Some { 1int } else { 0 }),
        ""@,
    );
    assert(next_query_text(owner, limit, scope) =~= w + rest);
    assert((w + rest).subrange(0, w.len() as int) =~= w);
}

// ---- the --if-absent title match ----------------------------------------------

/// The first live item, in id order, whose normalized title is `norm`; none
/// for an empty normalized title, which never matches.
pub open spec fn norm_match(live: Seq<(i64, String)>, norm: Seq<char>, i: int) -> bool {
    0 <= i < live.len() && normalize_title_spec(live[i].1@) == norm && forall|j: int|
        0 <= j < i ==> normalize_title_spec((#[trigger] live[j]).1@) != norm
}

/// Find the live item an `--if-absent` add reuses: `live` holds the project's
/// live items `(id, title)` in id order; `norm` is the new title normalized.
pub fn find_by_norm_title(live: &[(i64, String)], norm: &str) -> (r: Option<i64>)
    ensures
        match r {
            Some(id) => norm@.len() > 0 && exists|i: int| norm_match(live@, norm@, i) && live@[i].0 == id,
            None => norm@.len() == 0 || forall|i: int| 0 <= i < live@.len() ==> normalize_title_spec((#[trigger] live@[i]).1@) != norm@,
        },
{
    let nv = crate::text::chars_of(norm);
    if nv.len() == 0 {
        return None;
    }
    assert(norm@.len() > 0);
    let mut i: usize = 0;
    while i < live.len()
        invariant
            i <= live.len(),
            norm@.len() > 0,
            forall|j: int| 0 <= j < i ==> normalize_title_spec((#[trigger] live@[j]).1@) != norm@,
        decreases live.len() - i,
    {
        let t = normalize_title(live[i].1.as_str());
        if str_eq(t.as_str(), norm) {
            assert(norm_match(live@, norm@, i as int));
            assert(exists|k: int| norm_match(live@, norm@, k) && live@[k].0 == live@[i as int].0);
            return Some(live[i].0);
        }
        i = i + 1;
    }
    None
}

// ---- the backlog file -------------------------------------------------------

/// The lines of a backlog section, or `_(none)_` when it is empty.
pub open spec fn section_body(lines: Seq<Seq<char>>, trailing_blank: bool) -> Seq<char> {
    if lines.len() == 0 {
        "_(none)_\n\n"@
    } else {
        lines.fold_left(Seq::<char>::empty(), |acc: Seq<char>, l: Seq<char>| acc + l) + (if trailing_blank {
            "\n"@
        } else {
            Seq::empty()
        })
    }
}

/// The rendered backlog: a title, the generated-file notice, the committed
/// items' lines and the icebox's lines.
pub open spec fn backlog_spec(project_key: Seq<char>, title: Seq<char>, committed: Seq<Seq<char>>, icebox: Seq<Seq<char>>) -> Seq<char> {
    "# "@ + title + " ("@ + project_key + ")\n\n"@ + "_Generated by `haven render`. Do not hand-edit._\n\n"@
        + "## Committed\n\n"@ + section_body(committed, true) + "## Icebox\n\n"@ + section_body(icebox, false)
}

fn push_lines(out: &mut String, lines: &Vec<String>)
    ensures
        final(out)@ == old(out)@ + strings_view(lines@).fold_left(Seq::<char>::empty(), |acc: Seq<char>, l: Seq<char>| acc + l),
{
    let ghost start = out@;
    let ghost f = |acc: Seq<char>, l: Seq<char>| acc + l;
    let mut i: usize = 0;
    while i < lines.len()
        invariant
            i <= lines.len(),
            f == (|acc: Seq<char>, l: Seq<char>| acc + l),
            out@ == start + strings_view(lines@).take(i as int).fold_left(Seq::<char>::empty(), f),
        decreases lines.len() - i,
    {
        let ghost pre = strings_view(lines@).take(i as int);
        let ghost nxt = strings_view(lines@).take(i + 1);
        push_str(out, lines[i].as_str());
        proof {
            assert(nxt.drop_last() =~= pre);
            assert(nxt.last() == lines@[i as int]@);
            assert(nxt.fold_left(Seq::<char>::empty(), f) == f(nxt.drop_last().fold_left(Seq::<char>::empty(), f), nxt.last()));
            assert(out@ =~= start + nxt.fold_left(Seq::<char>::empty(), f));
        }
        i = i + 1;
    }
    assert(strings_view(lines@).take(lines.len() as int) =~= strings_view(lines@));
}

/// Render the backlog file of a project from the backlog lines of its
/// committed items and of its icebox, each in list order.
pub fn backlog_markdown(project_key: &str, title: &str, committed: &Vec<String>, icebox: &Vec<String>) -> (r: String)
    ensures
        r@ == backlog_spec(project_key@, title@, strings_view(committed@), strings_view(icebox@)),
{
    let mut out = string_of("# ");
    push_str(&mut out, title);
    push_str(&mut out, " (");
    push_str(&mut out, project_key);
    push_str(&mut out, ")\n\n");
    push_str(&mut out, "_Generated by `haven render`. Do not hand-edit._\n\n");
    push_str(&mut out, "## Committed\n\n");
    if committed.len() == 0 {
        push_str(&mut out, "_(none)_\n\n");
    } else {
        push_lines(&mut out, committed);
        push_str(&mut out, "\n");
    }
    push_str(&mut out, "## Icebox\n\n");
    if icebox.len() == 0 {
        push_str(&mut out, "_(none)_\n\n");
    } else {
        push_lines(&mut out, icebox);
    }
    proof {
        assert(Seq::<char>::empty() + Seq::<char>::empty() =~= Seq::<char>::empty());
        assert(out@ =~= backlog_spec(project_key@, title@, strings_view(committed@), strings_view(icebox@)));
    }
    out
}

} // verus!
