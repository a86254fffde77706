//! Evolution (split / merge / supersede): the checks an evolve op makes before
//! it writes, the lineage edges it appends, and the plan that re-points the
//! superseded sources' structural edges onto the surviving node.

use vstd::prelude::*;
use crate::edge::EdgeKind;
use crate::error::{graph_rule_with, invalid_with, HavenError};
use crate::item::{all_whitespace, blank};
use crate::model::{Item, NodeType};
use crate::text::string_of;

verus! {

// ---- checks before any write -------------------------------------------------

/// A split needs at least one `--into` title.
pub fn check_split(into: &[String]) -> (r: Result<(), HavenError>)
    ensures
        r is Ok <==> into@.len() > 0,
        r matches Err(e) ==> invalid_with(e, "split requires at least one --into title"@),
{
    if into.len() == 0 {
        return Err(HavenError::Invalid(string_of("split requires at least one --into title")));
    }
    Ok(())
}

/// A merge needs at least two sources and a non-blank title, checked in that
/// order.
pub fn check_merge(source_count: usize, title: &str) -> (r: Result<(), HavenError>)
    ensures
        match r {
            Ok(()) => source_count >= 2 && !blank(title@),
            Err(e) => if source_count < 2 {
                invalid_with(e, "merge requires at least two source items"@)
            } else {
                blank(title@) && invalid_with(e, "merge requires a --title"@)
            },
        },
{
    if source_count < 2 {
        return Err(HavenError::Invalid(string_of("merge requires at least two source items")));
    }
    if all_whitespace(title) {
        return Err(HavenError::Invalid(string_of("merge requires a --title")));
    }
    Ok(())
}

/// A node cannot supersede itself.
pub fn check_supersede(source_id: i64, with_id: i64) -> (r: Result<(), HavenError>)
    ensures
        r is Ok <==> source_id != with_id,
        r matches Err(e) ==> invalid_with(e, "cannot supersede a node with itself"@),
{
    if source_id == with_id {
        return Err(HavenError::Invalid(string_of("cannot supersede a node with itself")));
    }
    Ok(())
}

// ---- lineage edges ----------------------------------------------------------

/// The lineage edges of a split: the source to each new node, in order.
pub fn split_lineage(source: i64, new_ids: &[i64]) -> (r: Vec<(i64, i64)>)
    ensures
        r@ == new_ids@.map_values(|t: i64| (source, t)),
{
    let mut r: Vec<(i64, i64)> = Vec::new();
    let mut i: usize = 0;
    while i < new_ids.len()
        invariant
            i <= new_ids.len(),
            r@ == new_ids@.subrange(0, i as int).map_values(|t: i64| (source, t)),
        decreases new_ids.len() - i,
    {
        r.push((source, new_ids[i]));
        i += 1;
        assert(r@ =~= new_ids@.subrange(0, i as int).map_values(|t: i64| (source, t)));
    }
    assert(new_ids@.subrange(0, new_ids@.len() as int) =~= new_ids@);
    r
}

/// The lineage edges of a merge: each source to the new node, in order.
pub fn merge_lineage(sources: &[i64], new_id: i64) -> (r: Vec<(i64, i64)>)
    ensures
        r@ == sources@.map_values(|f: i64| (f, new_id)),
{
    let mut r: Vec<(i64, i64)> = Vec::new();
    let mut i: usize = 0;
    while i < sources.len()
        invariant
            i <= sources.len(),
            r@ == sources@.subrange(0, i as int).map_values(|f: i64| (f, new_id)),
        decreases sources.len() - i,
    {
        r.push((sources[i], new_id));
        i += 1;
        assert(r@ =~= sources@.subrange(0, i as int).map_values(|f: i64| (f, new_id)));
    }
    assert(sources@.subrange(0, sources@.len() as int) =~= sources@);
    r
}

// ---- remapping --------------------------------------------------------------

/// A source endpoint stands for the survivor; any other node for itself.
pub open spec fn remap(sources: Seq<i64>, survivor: i64, id: i64) -> i64 {
    if sources.contains(id) {
        survivor
    } else {
        id
    }
}

/// The edges of `es` that enter `src` (`e.1 == src`), re-pointed to enter the
/// survivor from the remapped other end; self-loops are dropped.
pub open spec fn inbound(es: Seq<(i64, i64)>, src: i64, sources: Seq<i64>, survivor: i64) -> Seq<
    (i64, i64),
>
    decreases es.len(),
{
    if es.len() == 0 {
        Seq::empty()
    } else {
        let e = es.last();
        let o = remap(sources, survivor, e.0);
        inbound(es.drop_last(), src, sources, survivor) + (if e.1 == src && o != survivor {
            seq![(o, survivor)]
        } else {
            Seq::empty()
        })
    }
}

/// The edges of `es` that leave `src` (`e.0 == src`), re-pointed to leave the
/// survivor towards the remapped other end; self-loops are dropped.
pub open spec fn outbound(es: Seq<(i64, i64)>, src: i64, sources: Seq<i64>, survivor: i64) -> Seq<
    (i64, i64),
>
    decreases es.len(),
{
    if es.len() == 0 {
        Seq::empty()
    } else {
        let e = es.last();
        let o = remap(sources, survivor, e.1);
        outbound(es.drop_last(), src, sources, survivor) + (if e.0 == src && o != survivor {
            seq![(survivor, o)]
        } else {
            Seq::empty()
        })
    }
}

/// Tag each pair with its edge layer.
pub open spec fn tagged(k: EdgeKind, ps: Seq<(i64, i64)>) -> Seq<(EdgeKind, i64, i64)> {
    ps.map_values(|p: (i64, i64)| (k, p.0, p.1))
}

/// The re-pointed edges of one source, in the order they are written: its
/// parents, its children, its dependents, its prerequisites, its groups, and —
/// only for a container survivor — its members.
pub open spec fn forward_one(
    src: i64,
    sources: Seq<i64>,
    survivor: i64,
    container: bool,
    decomp: Seq<(i64, i64)>,
    deps: Seq<(i64, i64)>,
    groups: Seq<(i64, i64)>,
) -> Seq<(EdgeKind, i64, i64)> {
    tagged(EdgeKind::Decomposition, inbound(decomp, src, sources, survivor)) + tagged(
        EdgeKind::Decomposition,
        outbound(decomp, src, sources, survivor),
    ) + tagged(EdgeKind::Dependency, inbound(deps, src, sources, survivor)) + tagged(
        EdgeKind::Dependency,
        outbound(deps, src, sources, survivor),
    ) + tagged(EdgeKind::Grouping, inbound(groups, src, sources, survivor)) + (if container {
        tagged(EdgeKind::Grouping, outbound(groups, src, sources, survivor))
    } else {
        Seq::empty()
    })
}

/// The re-pointed edges of the first `n` sources, in source order.
pub open spec fn forward_upto(
    n: int,
    sources: Seq<i64>,
    survivor: i64,
    container: bool,
    decomp: Seq<(i64, i64)>,
    deps: Seq<(i64, i64)>,
    groups: Seq<(i64, i64)>,
) -> Seq<(EdgeKind, i64, i64)>
    decreases n,
{
    if n <= 0 {
        Seq::empty()
    } else {
        forward_upto(n - 1, sources, survivor, container, decomp, deps, groups) + forward_one(
            sources[n - 1],
            sources,
            survivor,
            container,
            decomp,
            deps,
            groups,
        )
    }
}

/// A member of some source's group that does not itself fold into the
/// survivor: it would be orphaned by a non-container survivor.
pub open spec fn orphans_member(sources: Seq<i64>, survivor: i64, groups: Seq<(i64, i64)>) -> bool {
    exists|i: int|
        0 <= i < groups.len() && #[trigger] sources.contains(groups[i].0) && remap(
            sources,
            survivor,
            groups[i].1,
        ) != survivor
}

/// The refusal of a merge or supersede that would orphan grouped members.
pub open spec fn orphan_msg() -> Seq<char> {
    "cannot merge/supersede a node that groups members into a non-container survivor — its members would be orphaned; regroup the members first, or supersede with a container survivor"@
}

// ---- the re-pointing plan ---------------------------------------------------

fn contains_id(v: &[i64], id: i64) -> (r: bool)
    ensures
        r == v@.contains(id),
{
    let mut i: usize = 0;
    while i < v.len()
        invariant
            i <= v.len(),
            forall|j: int| 0 <= j < i ==> v@[j] != id,
        decreases v.len() - i,
    {
        if v[i] == id {
            return true;
        }
        i += 1;
    }
    false
}

fn remap_id(sources: &[i64], survivor: i64, id: i64) -> (r: i64)
    ensures
        r == remap(sources@, survivor, id),
{
    if contains_id(sources, id) {
        survivor
    } else {
        id
    }
}

/// Append the re-pointed edges of `es` at `src`, tagged `k`: inbound ones when
/// `into_src`, else outbound ones.
fn push_forwarded(
    out: &mut Vec<(EdgeKind, i64, i64)>,
    k: EdgeKind,
    es: &[(i64, i64)],
    into_src: bool,
    src: i64,
    sources: &[i64],
    survivor: i64,
)
    ensures
        final(out)@ == old(out)@ + tagged(
            k,
            if into_src {
                inbound(es@, src, sources@, survivor)
            } else {
                outbound(es@, src, sources@, survivor)
            },
        ),
{
    let ghost start = out@;
    let mut i: usize = 0;
    while i < es.len()
        invariant
            i <= es.len(),
            out@ == start + tagged(
                k,
                if into_src {
                    inbound(es@.subrange(0, i as int), src, sources@, survivor)
                } else {
                    outbound(es@.subrange(0, i as int), src, sources@, survivor)
                },
            ),
        decreases es.len() - i,
    {
        let ghost pre = es@.subrange(0, i as int);
        let ghost next = es@.subrange(0, i as int + 1);
        assert(next.drop_last() =~= pre);
        assert(next.last() == es@[i as int]);
        let (a, b) = es[i];
        let ghost before = if into_src {
            inbound(pre, src, sources@, survivor)
        } else {
            outbound(pre, src, sources@, survivor)
        };
        if into_src {
            let o = remap_id(sources, survivor, a);
            if b == src && o != survivor {
                out.push((k, o, survivor));
                assert(tagged(k, before + seq![(o, survivor)]) =~= tagged(k, before) + seq![
                    (k, o, survivor),
                ]);
            } else {
                assert(before + Seq::<(i64, i64)>::empty() =~= before);
            }
        } else {
            let o = remap_id(sources, survivor, b);
            if a == src && o != survivor {
                out.push((k, survivor, o));
                assert(tagged(k, before + seq![(survivor, o)]) =~= tagged(k, before) + seq![
                    (k, survivor, o),
                ]);
            } else {
                assert(before + Seq::<(i64, i64)>::empty() =~= before);
            }
        }
        i += 1;
    }
    assert(es@.subrange(0, es@.len() as int) =~= es@);
}

/// Whether some source groups a member that does not fold into the survivor.
fn find_orphan(sources: &[i64], survivor: i64, groups: &[(i64, i64)]) -> (r: bool)
    ensures
        r == orphans_member(sources@, survivor, groups@),
{
    let mut i: usize = 0;
    while i < groups.len()
        invariant
            i <= groups.len(),
            forall|j: int|
                0 <= j < i ==> !(#[trigger] sources@.contains(groups@[j].0) && remap(
                    sources@,
                    survivor,
                    groups@[j].1,
                ) != survivor),
        decreases groups.len() - i,
    {
        let (g, m) = groups[i];
        if contains_id(sources, g) && remap_id(sources, survivor, m) != survivor {
            assert(sources@.contains(groups@[i as int].0));
            return true;
        }
        i += 1;
    }
    false
}

/// Plan the re-pointing of the superseded `sources`' structural edges onto
/// `survivor`, given every decomposition `(parent, child)`, dependency `(node,
/// depends_on)` and grouping `(group, member)` edge. An edge between two
/// sources, or between a source and the survivor, folds into a self-loop and is
/// dropped. A non-container survivor cannot be a grouping target, so when a
/// source groups a member that does not itself fold into the survivor the whole
/// op is refused rather than orphaning it. The caller writes the planned edges
/// through the cycle-guarded, idempotent inserts, then deletes every edge of
/// the sources.
pub fn plan_forward(
    sources: &[i64],
    survivor: i64,
    survivor_type: NodeType,
    decomp: &[(i64, i64)],
    deps: &[(i64, i64)],
    groups: &[(i64, i64)],
) -> (r: Result<Vec<(EdgeKind, i64, i64)>, HavenError>)
    ensures
        match r {
            Ok(plan) => !(!survivor_type.is_container_spec() && orphans_member(
                sources@,
                survivor,
                groups@,
            )) && plan@ == forward_upto(
                sources@.len() as int,
                sources@,
                survivor,
                survivor_type.is_container_spec(),
                decomp@,
                deps@,
                groups@,
            ),
            Err(e) => !survivor_type.is_container_spec() && orphans_member(
                sources@,
                survivor,
                groups@,
            ) && graph_rule_with(e, orphan_msg()),
        },
{
    let container = survivor_type.is_container();
    if !container && find_orphan(sources, survivor, groups) {
        return Err(
            HavenError::GraphRule(
                string_of(
                    "cannot merge/supersede a node that groups members into a non-container survivor — its members would be orphaned; regroup the members first, or supersede with a container survivor",
                ),
            ),
        );
    }
    let mut plan: Vec<(EdgeKind, i64, i64)> = Vec::new();
    let mut i: usize = 0;
    while i < sources.len()
        invariant
            i <= sources.len(),
            container == survivor_type.is_container_spec(),
            plan@ == forward_upto(
                i as int,
                sources@,
                survivor,
                container,
                decomp@,
                deps@,
                groups@,
            ),
        decreases sources.len() - i,
    {
        let src = sources[i];
        let ghost before = plan@;
        push_forwarded(&mut plan, EdgeKind::Decomposition, decomp, true, src, sources, survivor);
        push_forwarded(&mut plan, EdgeKind::Decomposition, decomp, false, src, sources, survivor);
        push_forwarded(&mut plan, EdgeKind::Dependency, deps, true, src, sources, survivor);
        push_forwarded(&mut plan, EdgeKind::Dependency, deps, false, src, sources, survivor);
        push_forwarded(&mut plan, EdgeKind::Grouping, groups, true, src, sources, survivor);
        if container {
            push_forwarded(&mut plan, EdgeKind::Grouping, groups, false, src, sources, survivor);
        }
        assert(plan@ =~= before + forward_one(
            src,
            sources@,
            survivor,
            container,
            decomp@,
            deps@,
            groups@,
        ));
        i += 1;
    }
    Ok(plan)
}

} // verus!

verus! {

// ---- what re-pointing guarantees ---------------------------------------------

/// An edge of the plan joins the survivor and a live node that is not one of the
/// superseded sources, and is not a self-loop.
pub open spec fn joins_survivor(sources: Seq<i64>, survivor: i64, e: (EdgeKind, i64, i64)) -> bool {
    &&& !sources.contains(e.1)
    &&& !sources.contains(e.2)
    &&& e.1 != e.2
    &&& (e.1 == survivor || e.2 == survivor)
}

proof fn lemma_inbound_shape(es: Seq<(i64, i64)>, src: i64, sources: Seq<i64>, survivor: i64)
    ensures
        forall|k: int|
            0 <= k < inbound(es, src, sources, survivor).len() ==> {
                let p = #[trigger] inbound(es, src, sources, survivor)[k];
                p.1 == survivor && p.0 != survivor && !sources.contains(p.0)
            },
    decreases es.len(),
{
    if es.len() > 0 {
        lemma_inbound_shape(es.drop_last(), src, sources, survivor);
        let pre = inbound(es.drop_last(), src, sources, survivor);
        let all = inbound(es, src, sources, survivor);
        assert forall|k: int| 0 <= k < all.len() implies {
            let p = #[trigger] all[k];
            p.1 == survivor && p.0 != survivor && !sources.contains(p.0)
        } by {
            if k < pre.len() {
                assert(all[k] == pre[k]);
            }
        }
    }
}

proof fn lemma_outbound_shape(es: Seq<(i64, i64)>, src: i64, sources: Seq<i64>, survivor: i64)
    ensures
        forall|k: int|
            0 <= k < outbound(es, src, sources, survivor).len() ==> {
                let p = #[trigger] outbound(es, src, sources, survivor)[k];
                p.0 == survivor && p.1 != survivor && !sources.contains(p.1)
            },
    decreases es.len(),
{
    if es.len() > 0 {
        lemma_outbound_shape(es.drop_last(), src, sources, survivor);
        let pre = outbound(es.drop_last(), src, sources, survivor);
        let all = outbound(es, src, sources, survivor);
        assert forall|k: int| 0 <= k < all.len() implies {
            let p = #[trigger] all[k];
            p.0 == survivor && p.1 != survivor && !sources.contains(p.1)
        } by {
            if k < pre.len() {
                assert(all[k] == pre[k]);
            }
        }
    }
}

proof fn lemma_tagged_in(k: EdgeKind, ps: Seq<(i64, i64)>, sources: Seq<i64>, survivor: i64, into: bool)
    requires
        !sources.contains(survivor),
        into ==> forall|j: int|
            0 <= j < ps.len() ==> (#[trigger] ps[j]).1 == survivor && ps[j].0 != survivor
                && !sources.contains(ps[j].0),
        !into ==> forall|j: int|
            0 <= j < ps.len() ==> (#[trigger] ps[j]).0 == survivor && ps[j].1 != survivor
                && !sources.contains(ps[j].1),
    ensures
        forall|j: int|
            0 <= j < tagged(k, ps).len() ==> joins_survivor(sources, survivor, #[trigger] tagged(k, ps)[j]),
{
    assert forall|j: int| 0 <= j < tagged(k, ps).len() implies joins_survivor(
        sources,
        survivor,
        #[trigger] tagged(k, ps)[j],
    ) by {
        assert(tagged(k, ps)[j] == (k, ps[j].0, ps[j].1));
    }
}

proof fn lemma_concat_joins(a: Seq<(EdgeKind, i64, i64)>, b: Seq<(EdgeKind, i64, i64)>, sources: Seq<i64>, survivor: i64)
    requires
        forall|j: int| 0 <= j < a.len() ==> joins_survivor(sources, survivor, #[trigger] a[j]),
        forall|j: int| 0 <= j < b.len() ==> joins_survivor(sources, survivor, #[trigger] b[j]),
    ensures
        forall|j: int| 0 <= j < (a + b).len() ==> joins_survivor(sources, survivor, #[trigger] (a + b)[j]),
{
    assert forall|j: int| 0 <= j < (a + b).len() implies joins_survivor(sources, survivor, #[trigger] (a + b)[j]) by {
        if j < a.len() {
            assert((a + b)[j] == a[j]);
        } else {
            assert((a + b)[j] == b[j - a.len()]);
        }
    }
}

proof fn lemma_one_joins(
    src: i64,
    sources: Seq<i64>,
    survivor: i64,
    container: bool,
    decomp: Seq<(i64, i64)>,
    deps: Seq<(i64, i64)>,
    groups: Seq<(i64, i64)>,
)
    requires
        !sources.contains(survivor),
    ensures
        forall|j: int|
            0 <= j < forward_one(src, sources, survivor, container, decomp, deps, groups).len()
                ==> joins_survivor(
                sources,
                survivor,
                #[trigger] forward_one(src, sources, survivor, container, decomp, deps, groups)[j],
            ),
{
    let d_in = inbound(decomp, src, sources, survivor);
    let d_out = outbound(decomp, src, sources, survivor);
    let p_in = inbound(deps, src, sources, survivor);
    let p_out = outbound(deps, src, sources, survivor);
    let g_in = inbound(groups, src, sources, survivor);
    let g_out = outbound(groups, src, sources, survivor);
    lemma_inbound_shape(decomp, src, sources, survivor);
    lemma_outbound_shape(decomp, src, sources, survivor);
    lemma_inbound_shape(deps, src, sources, survivor);
    lemma_outbound_shape(deps, src, sources, survivor);
    lemma_inbound_shape(groups, src, sources, survivor);
    lemma_outbound_shape(groups, src, sources, survivor);
    lemma_tagged_in(EdgeKind::Decomposition, d_in, sources, survivor, true);
    lemma_tagged_in(EdgeKind::Decomposition, d_out, sources, survivor, false);
    lemma_tagged_in(EdgeKind::Dependency, p_in, sources, survivor, true);
    lemma_tagged_in(EdgeKind::Dependency, p_out, sources, survivor, false);
    lemma_tagged_in(EdgeKind::Grouping, g_in, sources, survivor, true);
    lemma_tagged_in(EdgeKind::Grouping, g_out, sources, survivor, false);
    let t1 = tagged(EdgeKind::Decomposition, d_in);
    let t2 = tagged(EdgeKind::Decomposition, d_out);
    let t3 = tagged(EdgeKind::Dependency, p_in);
    let t4 = tagged(EdgeKind::Dependency, p_out);
    let t5 = tagged(EdgeKind::Grouping, g_in);
    let t6: Seq<(EdgeKind, i64, i64)> = if container {
        tagged(EdgeKind::Grouping, g_out)
    } else {
        Seq::empty()
    };
    lemma_concat_joins(t1, t2, sources, survivor);
    lemma_concat_joins(t1 + t2, t3, sources, survivor);
    lemma_concat_joins(t1 + t2 + t3, t4, sources, survivor);
    lemma_concat_joins(t1 + t2 + t3 + t4, t5, sources, survivor);
    lemma_concat_joins(t1 + t2 + t3 + t4 + t5, t6, sources, survivor);
    assert(forward_one(src, sources, survivor, container, decomp, deps, groups) == t1 + t2 + t3 + t4
        + t5 + t6);
}

/// Re-pointing never leaves a superseded source on an edge and never writes a
/// self-loop: when the survivor is not itself one of the sources, every planned
/// edge joins the survivor to a live node.
pub proof fn lemma_forward_joins_survivor(
    sources: Seq<i64>,
    survivor: i64,
    container: bool,
    decomp: Seq<(i64, i64)>,
    deps: Seq<(i64, i64)>,
    groups: Seq<(i64, i64)>,
    n: int,
)
    requires
        !sources.contains(survivor),
        0 <= n <= sources.len(),
    ensures
        forall|j: int|
            0 <= j < forward_upto(n, sources, survivor, container, decomp, deps, groups).len()
                ==> joins_survivor(
                sources,
                survivor,
                #[trigger] forward_upto(n, sources, survivor, container, decomp, deps, groups)[j],
            ),
    decreases n,
{
    if n > 0 {
        lemma_forward_joins_survivor(sources, survivor, container, decomp, deps, groups, n - 1);
        lemma_one_joins(sources[n - 1], sources, survivor, container, decomp, deps, groups);
        lemma_concat_joins(
            forward_upto(n - 1, sources, survivor, container, decomp, deps, groups),
            forward_one(sources[n - 1], sources, survivor, container, decomp, deps, groups),
            sources,
            survivor,
        );
    }
}

proof fn lemma_inbound_has(es: Seq<(i64, i64)>, src: i64, sources: Seq<i64>, survivor: i64, i: int)
    requires
        0 <= i < es.len(),
        es[i].1 == src,
        remap(sources, survivor, es[i].0) != survivor,
    ensures
        inbound(es, src, sources, survivor).contains((remap(sources, survivor, es[i].0), survivor)),
    decreases es.len(),
{
    let x = (remap(sources, survivor, es[i].0), survivor);
    let pre = inbound(es.drop_last(), src, sources, survivor);
    if i == es.len() - 1 {
        assert(inbound(es, src, sources, survivor)[pre.len() as int] == x);
    } else {
        lemma_inbound_has(es.drop_last(), src, sources, survivor, i);
        let k = choose|k: int| 0 <= k < pre.len() && pre[k] == x;
        assert(inbound(es, src, sources, survivor)[k] == x);
    }
}

proof fn lemma_outbound_has(es: Seq<(i64, i64)>, src: i64, sources: Seq<i64>, survivor: i64, i: int)
    requires
        0 <= i < es.len(),
        es[i].0 == src,
        remap(sources, survivor, es[i].1) != survivor,
    ensures
        outbound(es, src, sources, survivor).contains((survivor, remap(sources, survivor, es[i].1))),
    decreases es.len(),
{
    let x = (survivor, remap(sources, survivor, es[i].1));
    let pre = outbound(es.drop_last(), src, sources, survivor);
    if i == es.len() - 1 {
        assert(outbound(es, src, sources, survivor)[pre.len() as int] == x);
    } else {
        lemma_outbound_has(es.drop_last(), src, sources, survivor, i);
        let k = choose|k: int| 0 <= k < pre.len() && pre[k] == x;
        assert(outbound(es, src, sources, survivor)[k] == x);
    }
}

proof fn lemma_upto_has(
    sources: Seq<i64>,
    survivor: i64,
    container: bool,
    decomp: Seq<(i64, i64)>,
    deps: Seq<(i64, i64)>,
    groups: Seq<(i64, i64)>,
    n: int,
    j: int,
    x: (EdgeKind, i64, i64),
)
    requires
        0 <= j < n <= sources.len(),
        forward_one(sources[j], sources, survivor, container, decomp, deps, groups).contains(x),
    ensures
        forward_upto(n, sources, survivor, container, decomp, deps, groups).contains(x),
    decreases n,
{
    let pre = forward_upto(n - 1, sources, survivor, container, decomp, deps, groups);
    let one = forward_one(sources[n - 1], sources, survivor, container, decomp, deps, groups);
    if j == n - 1 {
        let k = choose|k: int| 0 <= k < one.len() && one[k] == x;
        assert((pre + one)[pre.len() + k] == x);
    } else {
        lemma_upto_has(sources, survivor, container, decomp, deps, groups, n - 1, j, x);
        let k = choose|k: int| 0 <= k < pre.len() && pre[k] == x;
        assert((pre + one)[k] == x);
    }
}

/// A merged-away prerequisite keeps its dependents blocked: a node that
/// depended on a source, and does not itself fold into the survivor, depends on
/// the survivor in the plan; and each prerequisite of a source becomes a
/// prerequisite of the survivor.
pub proof fn lemma_forward_keeps_dependencies(
    sources: Seq<i64>,
    survivor: i64,
    container: bool,
    decomp: Seq<(i64, i64)>,
    deps: Seq<(i64, i64)>,
    groups: Seq<(i64, i64)>,
    i: int,
)
    requires
        0 <= i < deps.len(),
    ensures
        sources.contains(deps[i].1) && remap(sources, survivor, deps[i].0) != survivor ==> forward_upto(
            sources.len() as int,
            sources,
            survivor,
            container,
            decomp,
            deps,
            groups,
        ).contains((EdgeKind::Dependency, remap(sources, survivor, deps[i].0), survivor)),
        sources.contains(deps[i].0) && remap(sources, survivor, deps[i].1) != survivor ==> forward_upto(
            sources.len() as int,
            sources,
            survivor,
            container,
            decomp,
            deps,
            groups,
        ).contains((EdgeKind::Dependency, survivor, remap(sources, survivor, deps[i].1))),
{
    let d_in = inbound(decomp, deps[i].1, sources, survivor);
    if sources.contains(deps[i].1) && remap(sources, survivor, deps[i].0) != survivor {
        let src = deps[i].1;
        let j = choose|j: int| 0 <= j < sources.len() && sources[j] == src;
        let x = (EdgeKind::Dependency, remap(sources, survivor, deps[i].0), survivor);
        lemma_inbound_has(deps, src, sources, survivor, i);
        let p_in = inbound(deps, src, sources, survivor);
        let k = choose|k: int| 0 <= k < p_in.len() && p_in[k] == (x.1, x.2);
        let t1 = tagged(EdgeKind::Decomposition, inbound(decomp, src, sources, survivor));
        let t2 = tagged(EdgeKind::Decomposition, outbound(decomp, src, sources, survivor));
        let t3 = tagged(EdgeKind::Dependency, p_in);
        let one = forward_one(src, sources, survivor, container, decomp, deps, groups);
        assert(t3[k] == x);
        assert(one[t1.len() + t2.len() + k] == x);
        lemma_upto_has(sources, survivor, container, decomp, deps, groups, sources.len() as int, j, x);
    }
    if sources.contains(deps[i].0) && remap(sources, survivor, deps[i].1) != survivor {
        let src = deps[i].0;
        let j = choose|j: int| 0 <= j < sources.len() && sources[j] == src;
        let x = (EdgeKind::Dependency, survivor, remap(sources, survivor, deps[i].1));
        lemma_outbound_has(deps, src, sources, survivor, i);
        let p_out = outbound(deps, src, sources, survivor);
        let k = choose|k: int| 0 <= k < p_out.len() && p_out[k] == (x.1, x.2);
        let t1 = tagged(EdgeKind::Decomposition, inbound(decomp, src, sources, survivor));
        let t2 = tagged(EdgeKind::Decomposition, outbound(decomp, src, sources, survivor));
        let t3 = tagged(EdgeKind::Dependency, inbound(deps, src, sources, survivor));
        let t4 = tagged(EdgeKind::Dependency, p_out);
        let one = forward_one(src, sources, survivor, container, decomp, deps, groups);
        assert(t4[k] == x);
        assert(one[t1.len() + t2.len() + t3.len() + k] == x);
        lemma_upto_has(sources, survivor, container, decomp, deps, groups, sources.len() as int, j, x);
    }
}

// ---- results ----------------------------------------------------------------

/// The result of an evolve operation: the nodes created, the refs of the
/// sources now superseded, and the lineage event's `public_id`.
#[derive(Debug)]
pub struct EvolveResult {
    pub new: Vec<Item>,
    pub superseded: Vec<String>,
    pub event_id: String,
}

} // verus!
