//! The `xref` read verb: every well-formed xref on a node's own artifacts
//! (outbound), and every other node's artifact whose Haven-ref target resolves
//! to the node (inbound backlinks), each list in a deterministic order.

use vstd::prelude::*;
use crate::content::{haven_ref_spec, is_haven_ref, RawXref};
use crate::model::{ArtifactRole, Xref, XrefIn, XrefOut, XrefReport, XrefRelation};
use crate::text::{
    lemma_seq_lt_asym, lemma_seq_lt_irreflexive, lemma_seq_lt_total, lemma_seq_lt_trans, seq_lt,
    str_eq, str_lt,
};

verus! {

broadcast use vstd::seq_lib::group_to_multiset_ensures;

// ---- the ordering -----------------------------------------------------------

/// A sort key: an optional string (absent first), then three strings.
pub type Key4 = (Option<Seq<char>>, Seq<char>, Seq<char>, Seq<char>);

/// Optional strings, absent before present, present ones lexically.
pub open spec fn opt_lt(a: Option<Seq<char>>, b: Option<Seq<char>>) -> bool {
    match (a, b) {
        (None, Some(_)) => true,
        (Some(x), Some(y)) => seq_lt(x, y),
        _ => false,
    }
}

/// Lexicographic order on keys.
pub open spec fn key4_lt(a: Key4, b: Key4) -> bool {
    ||| opt_lt(a.0, b.0)
    ||| a.0 == b.0 && seq_lt(a.1, b.1)
    ||| a.0 == b.0 && a.1 == b.1 && seq_lt(a.2, b.2)
    ||| a.0 == b.0 && a.1 == b.1 && a.2 == b.2 && seq_lt(a.3, b.3)
}

proof fn lemma_opt_lt(a: Option<Seq<char>>, b: Option<Seq<char>>, c: Option<Seq<char>>)
    ensures
        !opt_lt(a, a),
        opt_lt(a, b) && opt_lt(b, c) ==> opt_lt(a, c),
        a == b || opt_lt(a, b) || opt_lt(b, a),
{
    if let Some(x) = a {
        lemma_seq_lt_irreflexive(x);
        if let Some(y) = b {
            lemma_seq_lt_total(x, y);
            if let Some(z) = c {
                if seq_lt(x, y) && seq_lt(y, z) {
                    lemma_seq_lt_trans(x, y, z);
                }
            }
        }
    }
}

proof fn lemma_key4(a: Key4, b: Key4, c: Key4)
    ensures
        !key4_lt(a, a),
        key4_lt(a, b) && key4_lt(b, c) ==> key4_lt(a, c),
        a == b || key4_lt(a, b) || key4_lt(b, a),
{
    lemma_opt_lt(a.0, b.0, c.0);
    lemma_opt_lt(a.0, a.0, a.0);
    lemma_opt_lt(b.0, a.0, c.0);
    lemma_opt_lt(b.0, c.0, a.0);
    lemma_seq_lt_irreflexive(a.1);
    lemma_seq_lt_irreflexive(a.2);
    lemma_seq_lt_irreflexive(a.3);
    lemma_seq_lt_total(a.1, b.1);
    lemma_seq_lt_total(a.2, b.2);
    lemma_seq_lt_total(a.3, b.3);
    if seq_lt(a.1, b.1) && seq_lt(b.1, c.1) {
        lemma_seq_lt_trans(a.1, b.1, c.1);
    }
    if seq_lt(a.2, b.2) && seq_lt(b.2, c.2) {
        lemma_seq_lt_trans(a.2, b.2, c.2);
    }
    if seq_lt(a.3, b.3) && seq_lt(b.3, c.3) {
        lemma_seq_lt_trans(a.3, b.3, c.3);
    }
    if a.0 == b.0 && a.1 == b.1 && a.2 == b.2 && a.3 == b.3 {
        assert(a == b);
    }
}

/// The characters of an optional owned string.
pub open spec fn opt_view(o: Option<String>) -> Option<Seq<char>> {
    match o {
        Some(s) => Some(s@),
        None => None,
    }
}

/// Outbound entries sort by path, store, target, then artifact.
pub open spec fn out_key(o: XrefOut) -> Key4 {
    (opt_view(o.path), o.xref.store@, o.xref.target@, o.artifact@)
}

/// Inbound entries sort by source node, store, then artifact.
pub open spec fn in_key(i: XrefIn) -> Key4 {
    (None, i.source@, i.xref.store@, i.artifact@)
}

/// Whether keys never decrease along `ks`.
pub open spec fn keys_sorted(ks: Seq<Key4>) -> bool {
    forall|i: int, j: int| 0 <= i < j < ks.len() ==> !key4_lt(#[trigger] ks[j], #[trigger] ks[i])
}

fn opt_str_lt(a: &Option<String>, b: &Option<String>) -> (r: bool)
    ensures
        r == opt_lt(opt_view(*a), opt_view(*b)),
{
    match (a, b) {
        (None, Some(_)) => true,
        (Some(x), Some(y)) => str_lt(x.as_str(), y.as_str()),
        _ => false,
    }
}

fn opt_str_eq(a: &Option<String>, b: &Option<String>) -> (r: bool)
    ensures
        r == (opt_view(*a) == opt_view(*b)),
{
    match (a, b) {
        (None, None) => true,
        (Some(x), Some(y)) => str_eq(x.as_str(), y.as_str()),
        _ => false,
    }
}

fn out_lt(a: &XrefOut, b: &XrefOut) -> (r: bool)
    ensures
        r == key4_lt(out_key(*a), out_key(*b)),
{
    if opt_str_lt(&a.path, &b.path) {
        return true;
    }
    if !opt_str_eq(&a.path, &b.path) {
        return false;
    }
    if str_lt(a.xref.store.as_str(), b.xref.store.as_str()) {
        return true;
    }
    if !str_eq(a.xref.store.as_str(), b.xref.store.as_str()) {
        return false;
    }
    if str_lt(a.xref.target.as_str(), b.xref.target.as_str()) {
        return true;
    }
    if !str_eq(a.xref.target.as_str(), b.xref.target.as_str()) {
        return false;
    }
    str_lt(a.artifact.as_str(), b.artifact.as_str())
}

fn in_lt(a: &XrefIn, b: &XrefIn) -> (r: bool)
    ensures
        r == key4_lt(in_key(*a), in_key(*b)),
{
    if str_lt(a.source.as_str(), b.source.as_str()) {
        return true;
    }
    if !str_eq(a.source.as_str(), b.source.as_str()) {
        return false;
    }
    if str_lt(a.xref.store.as_str(), b.xref.store.as_str()) {
        return true;
    }
    if !str_eq(a.xref.store.as_str(), b.xref.store.as_str()) {
        return false;
    }
    str_lt(a.artifact.as_str(), b.artifact.as_str())
}

/// The keys of outbound entries.
pub open spec fn out_keys(s: Seq<XrefOut>) -> Seq<Key4> {
    s.map_values(|o: XrefOut| out_key(o))
}

/// The keys of inbound entries.
pub open spec fn in_keys(s: Seq<XrefIn>) -> Seq<Key4> {
    s.map_values(|i: XrefIn| in_key(i))
}

/// Sort outbound entries by their key; entries with equal keys keep their order.
fn sort_outbound(v: Vec<XrefOut>) -> (r: Vec<XrefOut>)
    ensures
        r@.to_multiset() == v@.to_multiset(),
        keys_sorted(out_keys(r@)),
{
    let mut out: Vec<XrefOut> = Vec::new();
    let mut rest = v;
    let ghost orig = rest@;
    let n0: usize = rest.len();
    let mut k: usize = 0;
    while rest.len() > 0
        invariant
            k <= orig.len(),
            rest.len() + k == orig.len(),
            orig.len() == n0,
            rest@ == orig.skip(k as int),
            out@.to_multiset() == orig.take(k as int).to_multiset(),
            keys_sorted(out_keys(out@)),
        decreases rest.len(),
    {
        proof {
            assert(orig.skip(k as int)[0] == orig[k as int]);
            assert(orig.skip(k as int).remove(0) =~= orig.skip(k + 1));
            assert(orig.take(k + 1) =~= orig.take(k as int).push(orig[k as int]));
        }
        let e = rest.remove(0);
        let mut p: usize = 0;
        while p < out.len() && !out_lt(&e, &out[p])
            invariant
                p <= out.len(),
                forall|q: int| 0 <= q < p ==> !key4_lt(out_key(e), #[trigger] out_key(out@[q])),
            decreases out.len() - p,
        {
            p = p + 1;
        }
        let ghost before = out@;
        proof {
            assert forall|q: int| p <= q < before.len() implies key4_lt(out_key(e), #[trigger] out_key(before[q])) by {
                if q > p {
                    let ks = out_keys(before);
                    assert(!key4_lt(ks[q], ks[p as int]));
                    lemma_key4(out_key(e), out_key(before[p as int]), out_key(before[q]));
                    lemma_key4(out_key(before[p as int]), out_key(before[q]), out_key(e));
                }
            }
        }
        out.insert(p, e);
        proof {
            let ks = out_keys(out@);
            let bks = out_keys(before);
            assert forall|i: int, j: int| 0 <= i < j < ks.len() implies !key4_lt(#[trigger] ks[j], #[trigger] ks[i]) by {
                if j < p {
                    assert(ks[i] == bks[i] && ks[j] == bks[j]);
                } else if j == p {
                    assert(ks[j] == out_key(e) && ks[i] == out_key(before[i]));
                } else if i > p {
                    assert(ks[i] == bks[i - 1] && ks[j] == bks[j - 1]);
                } else if i == p {
                    assert(ks[i] == out_key(e) && ks[j] == out_key(before[j - 1]));
                    lemma_key4(out_key(e), out_key(before[j - 1]), out_key(e));
                    lemma_key4(out_key(before[j - 1]), out_key(e), out_key(before[j - 1]));
                } else {
                    assert(ks[i] == bks[i] && ks[j] == bks[j - 1]);
                }
            }
            assert(out@ == before.insert(p as int, e));
            vstd::seq_lib::to_multiset_insert(before, p as int, e);
        }
        k = k + 1;
    }
    proof {
        assert(orig.take(orig.len() as int) =~= orig);
    }
    out
}

/// Sort inbound entries by their key; entries with equal keys keep their order.
fn sort_inbound(v: Vec<XrefIn>) -> (r: Vec<XrefIn>)
    ensures
        r@.to_multiset() == v@.to_multiset(),
        keys_sorted(in_keys(r@)),
{
    let mut out: Vec<XrefIn> = Vec::new();
    let mut rest = v;
    let ghost orig = rest@;
    let n0: usize = rest.len();
    let mut k: usize = 0;
    while rest.len() > 0
        invariant
            k <= orig.len(),
            rest.len() + k == orig.len(),
            orig.len() == n0,
            rest@ == orig.skip(k as int),
            out@.to_multiset() == orig.take(k as int).to_multiset(),
            keys_sorted(in_keys(out@)),
        decreases rest.len(),
    {
        proof {
            assert(orig.skip(k as int)[0] == orig[k as int]);
            assert(orig.skip(k as int).remove(0) =~= orig.skip(k + 1));
            assert(orig.take(k + 1) =~= orig.take(k as int).push(orig[k as int]));
        }
        let e = rest.remove(0);
        let mut p: usize = 0;
        while p < out.len() && !in_lt(&e, &out[p])
            invariant
                p <= out.len(),
                forall|q: int| 0 <= q < p ==> !key4_lt(in_key(e), #[trigger] in_key(out@[q])),
            decreases out.len() - p,
        {
            p = p + 1;
        }
        let ghost before = out@;
        proof {
            assert forall|q: int| p <= q < before.len() implies key4_lt(in_key(e), #[trigger] in_key(before[q])) by {
                if q > p {
                    let ks = in_keys(before);
                    assert(!key4_lt(ks[q], ks[p as int]));
                    lemma_key4(in_key(e), in_key(before[p as int]), in_key(before[q]));
                    lemma_key4(in_key(before[p as int]), in_key(before[q]), in_key(e));
                }
            }
        }
        out.insert(p, e);
        proof {
            let ks = in_keys(out@);
            let bks = in_keys(before);
            assert forall|i: int, j: int| 0 <= i < j < ks.len() implies !key4_lt(#[trigger] ks[j], #[trigger] ks[i]) by {
                if j < p {
                    assert(ks[i] == bks[i] && ks[j] == bks[j]);
                } else if j == p {
                    assert(ks[j] == in_key(e) && ks[i] == in_key(before[i]));
                } else if i > p {
                    assert(ks[i] == bks[i - 1] && ks[j] == bks[j - 1]);
                } else if i == p {
                    assert(ks[i] == in_key(e) && ks[j] == in_key(before[j - 1]));
                    lemma_key4(in_key(e), in_key(before[j - 1]), in_key(e));
                    lemma_key4(in_key(before[j - 1]), in_key(e), in_key(before[j - 1]));
                } else {
                    assert(ks[i] == bks[i] && ks[j] == bks[j - 1]);
                }
            }
            assert(out@ == before.insert(p as int, e));
            vstd::seq_lib::to_multiset_insert(before, p as int, e);
        }
        k = k + 1;
    }
    proof {
        assert(orig.take(orig.len() as int) =~= orig);
    }
    out
}

} // verus!

verus! {

pub(crate) proof fn lemma_map_multiset<A, B>(s: Seq<A>, t: Seq<A>, f: spec_fn(A) -> B)
    requires
        s.to_multiset() == t.to_multiset(),
    ensures
        s.map_values(f).to_multiset() == t.map_values(f).to_multiset(),
    decreases s.len(),
{
    broadcast use vstd::multiset::group_multiset_axioms;
    if s.len() == 0 {
        assert(s.to_multiset().len() == s.len());
        assert(t.to_multiset().len() == t.len());
        assert(t.len() == 0);
        assert(s.map_values(f) =~= t.map_values(f));
    } else {
        let x = s.last();
        let s1 = s.drop_last();
        assert(s =~= s1.push(x));
        assert(s.to_multiset().count(x) > 0);
        assert(t.contains(x));
        let i = choose|i: int| 0 <= i < t.len() && t[i] == x;
        let t1 = t.remove(i);
        assert(s1.to_multiset() =~= s.to_multiset().remove(x));
        assert(t1.to_multiset() =~= t.to_multiset().remove(x));
        lemma_map_multiset(s1, t1, f);
        let sm = s.map_values(f);
        let tm = t.map_values(f);
        assert(sm =~= s1.map_values(f).push(f(x)));
        assert(tm.remove(i) =~= t1.map_values(f));
        assert(tm[i] == f(x));
        assert(tm.to_multiset().count(f(x)) > 0);
        assert(tm.remove(i).to_multiset() =~= tm.to_multiset().remove(f(x)));
        assert(tm.to_multiset() =~= tm.to_multiset().remove(f(x)).insert(f(x)));
    }
}

// ---- the report -------------------------------------------------------------

/// What an xref entry says, as plain values: `(artifact, role, path, relation,
/// store, target, canonical)`.
pub type XrefView = (Seq<char>, ArtifactRole, Option<Seq<char>>, XrefRelation, Seq<char>, Seq<char>, bool);

/// An outbound entry as plain values.
pub open spec fn out_view(o: XrefOut) -> XrefView {
    (o.artifact@, o.role, opt_view(o.path), o.xref.relation, o.xref.store@, o.xref.target@, o.xref.canonical)
}

/// An inbound entry as its source node and plain values.
pub open spec fn in_view(i: XrefIn) -> (Seq<char>, XrefView) {
    (i.source@, (i.artifact@, i.role, opt_view(i.path), i.xref.relation, i.xref.store@, i.xref.target@, i.xref.canonical))
}

/// A well-formed raw xref as plain values (a missing store reads as empty).
pub open spec fn raw_view(r: RawXref) -> XrefView {
    (
        r.artifact@,
        r.role,
        opt_view(r.path),
        r.relation.unwrap(),
        match r.store {
            Some(s) => s@,
            None => Seq::empty(),
        },
        r.target.unwrap()@,
        r.canonical,
    )
}

/// Whether a raw xref is well formed (a valid relation and a target).
pub open spec fn well_formed(r: RawXref) -> bool {
    r.relation is Some && r.target is Some
}

/// The node's own well-formed xrefs among the first `n`, in order.
pub open spec fn outbound_upto(raws: Seq<RawXref>, node: Seq<char>, n: int) -> Seq<XrefView>
    decreases n,
{
    if n <= 0 {
        Seq::empty()
    } else {
        outbound_upto(raws, node, n - 1) + (if raws[n - 1].node_ref@ == node && well_formed(raws[n - 1]) {
            seq![raw_view(raws[n - 1])]
        } else {
            Seq::empty()
        })
    }
}

/// A raw xref is a backlink to the node: another node's well-formed xref whose
/// target is a Haven ref of the project that resolves to the node.
pub open spec fn backlink(r: RawXref, node: Seq<char>, prefix: Seq<char>, resolves_here: bool) -> bool {
    r.node_ref@ != node && well_formed(r) && haven_ref_spec(prefix, r.target.unwrap()@) && resolves_here
}

/// The backlinks among the first `n`, in order, with their source nodes.
pub open spec fn inbound_upto(
    raws: Seq<RawXref>,
    node: Seq<char>,
    prefix: Seq<char>,
    resolves: Seq<bool>,
    n: int,
) -> Seq<(Seq<char>, XrefView)>
    decreases n,
{
    if n <= 0 {
        Seq::empty()
    } else {
        inbound_upto(raws, node, prefix, resolves, n - 1) + (if backlink(raws[n - 1], node, prefix, resolves[n - 1]) {
            seq![(raws[n - 1].node_ref@, raw_view(raws[n - 1]))]
        } else {
            Seq::empty()
        })
    }
}

/// The views of outbound entries.
pub open spec fn out_views(s: Seq<XrefOut>) -> Seq<XrefView> {
    s.map_values(|o: XrefOut| out_view(o))
}

/// The views of inbound entries.
pub open spec fn in_views(s: Seq<XrefIn>) -> Seq<(Seq<char>, XrefView)> {
    s.map_values(|i: XrefIn| in_view(i))
}

/// The `xref` report of node `node_ref` in a project with ref prefix `prefix`,
/// over the project's raw xrefs; `resolves_here[i]` says whether the target of
/// `raws[i]` resolves to this node among the live nodes. Outbound: the node's
/// own well-formed xrefs, ordered by path (pathless first), store, target and
/// artifact. Inbound: other nodes' well-formed xrefs whose Haven-ref target
/// resolves here, ordered by source, store and artifact. Cross-store targets
/// never yield a backlink.
pub fn xref_report(node_ref: String, prefix: &str, raws: &[RawXref], resolves_here: &[bool]) -> (r: XrefReport)
    requires
        resolves_here@.len() == raws@.len(),
    ensures
        r.node == node_ref,
        out_views(r.outbound@).to_multiset() == outbound_upto(raws@, node_ref@, raws@.len() as int).to_multiset(),
        keys_sorted(out_keys(r.outbound@)),
        in_views(r.inbound@).to_multiset() == inbound_upto(raws@, node_ref@, prefix@, resolves_here@, raws@.len() as int).to_multiset(),
        keys_sorted(in_keys(r.inbound@)),
{
    let mut outbound: Vec<XrefOut> = Vec::new();
    let mut inbound: Vec<XrefIn> = Vec::new();
    let mut i: usize = 0;
    while i < raws.len()
        invariant
            i <= raws.len(),
            resolves_here@.len() == raws@.len(),
            out_views(outbound@) == outbound_upto(raws@, node_ref@, i as int),
            in_views(inbound@) == inbound_upto(raws@, node_ref@, prefix@, resolves_here@, i as int),
        decreases raws.len() - i,
    {
        let r = &raws[i];
        let ghost bo = outbound@;
        let ghost bi = inbound@;
        let own = str_eq(r.node_ref.as_str(), node_ref.as_str());
        match r.to_xref() {
            Some(x) => {
                if own {
                    let o = XrefOut { artifact: r.artifact.clone(), role: r.role, path: r.path.clone(), xref: x };
                    assert(out_view(o) == raw_view(raws@[i as int]));
                    outbound.push(o);
                    proof {
                        assert(out_views(outbound@) =~= out_views(bo).push(out_view(o)));
                    }
                    assert(inbound_upto(raws@, node_ref@, prefix@, resolves_here@, i + 1) =~= in_views(bi));
                } else {
                    let haven = match &r.target {
                        Some(t) => is_haven_ref(prefix, t.as_str()),
                        None => false,
                    };
                    if haven && resolves_here[i] {
                        let e = XrefIn {
                            source: r.node_ref.clone(),
                            artifact: r.artifact.clone(),
                            role: r.role,
                            path: r.path.clone(),
                            xref: x,
                        };
                        assert(in_view(e) == (raws@[i as int].node_ref@, raw_view(raws@[i as int])));
                        inbound.push(e);
                        proof {
                            assert(in_views(inbound@) =~= in_views(bi).push(in_view(e)));
                        }
                    } else {
                        assert(inbound_upto(raws@, node_ref@, prefix@, resolves_here@, i + 1) =~= in_views(bi));
                    }
                    assert(outbound_upto(raws@, node_ref@, i + 1) =~= out_views(bo));
                }
            },
            None => {
                assert(outbound_upto(raws@, node_ref@, i + 1) =~= out_views(bo));
                assert(inbound_upto(raws@, node_ref@, prefix@, resolves_here@, i + 1) =~= in_views(bi));
            },
        }
        i = i + 1;
    }
    let ghost uo = outbound@;
    let ghost ui = inbound@;
    let outbound = sort_outbound(outbound);
    let inbound = sort_inbound(inbound);
    proof {
        lemma_map_multiset(outbound@, uo, |o: XrefOut| out_view(o));
        lemma_map_multiset(inbound@, ui, |e: XrefIn| in_view(e));
    }
    XrefReport { node: node_ref, outbound, inbound }
}

} // verus!

verus! {

/// A backlink is never a self-link and never a cross-store locator: every
/// inbound entry comes from another node and targets a Haven ref of the
/// project.
pub proof fn lemma_backlinks_are_haven_refs(
    raws: Seq<RawXref>,
    node: Seq<char>,
    prefix: Seq<char>,
    resolves: Seq<bool>,
    n: int,
)
    requires
        0 <= n <= raws.len(),
        resolves.len() == raws.len(),
    ensures
        forall|k: int|
            0 <= k < inbound_upto(raws, node, prefix, resolves, n).len() ==> {
                let e = #[trigger] inbound_upto(raws, node, prefix, resolves, n)[k];
                e.0 != node && haven_ref_spec(prefix, e.1.5)
            },
    decreases n,
{
    if n > 0 {
        lemma_backlinks_are_haven_refs(raws, node, prefix, resolves, n - 1);
        let pre = inbound_upto(raws, node, prefix, resolves, n - 1);
        let all = inbound_upto(raws, node, prefix, resolves, n);
        assert forall|k: int| 0 <= k < all.len() implies {
            let e = #[trigger] all[k];
            e.0 != node && haven_ref_spec(prefix, e.1.5)
        } by {
            if k < pre.len() {
                assert(all[k] == pre[k]);
            }
        }
    }
}

} // verus!
