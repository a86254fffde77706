//! What a failed ref lookup tells the caller: the closest live refs by counter,
//! and a note when the ref's prefix belongs to another project.

use vstd::prelude::*;
use crate::item::{parse_ref, parse_ref_spec};
use crate::model::Status;
use crate::text::{debug_quoted, debug_quoted_spec, push_str, string_of, strings_view};
use crate::words::{join, push_joined};

verus! {

// ---- prefixes ---------------------------------------------------------------

/// A character with ASCII upper case folded to lower case, as a code point.
pub open spec fn ascii_fold(c: char) -> u32 {
    if 'A' <= c && c <= 'Z' {
        (c as u32 + 32) as u32
    } else {
        c as u32
    }
}

/// Equality up to ASCII case.
pub open spec fn eq_ignore_ascii_case_spec(a: Seq<char>, b: Seq<char>) -> bool {
    a.len() == b.len() && forall|i: int| 0 <= i < a.len() ==> ascii_fold(#[trigger] a[i]) == ascii_fold(b[i])
}

fn fold(c: char) -> (r: u32)
    ensures
        r == ascii_fold(c),
{
    if 'A' <= c && c <= 'Z' {
        (c as u32) + 32
    } else {
        c as u32
    }
}

/// Whether two strings are equal up to ASCII case.
pub fn eq_ignore_ascii_case(a: &str, b: &str) -> (r: bool)
    ensures
        r == eq_ignore_ascii_case_spec(a@, b@),
{
    let va = crate::text::chars_of(a);
    let vb = crate::text::chars_of(b);
    if va.len() != vb.len() {
        return false;
    }
    let mut i: usize = 0;
    while i < va.len()
        invariant
            i <= va.len(),
            va@ == a@,
            vb@ == b@,
            va.len() == vb.len(),
            forall|j: int| 0 <= j < i ==> ascii_fold(#[trigger] a@[j]) == ascii_fold(b@[j]),
        decreases va.len() - i,
    {
        if fold(va[i]) != fold(vb[i]) {
            return false;
        }
        i = i + 1;
    }
    true
}

/// The prefix of a ref-shaped selector, when it is not the project's own
/// (compared up to ASCII case): the prefix to look up among the other projects.
pub open spec fn foreign_prefix_spec(selector: Seq<char>, prefix: Seq<char>) -> Option<Seq<char>> {
    match parse_ref_spec(selector) {
        Some((p, _)) => if eq_ignore_ascii_case_spec(p, prefix) {
            None
        } else {
            Some(p)
        },
        None => None,
    }
}

/// The selector's prefix when it names another project's refs.
pub fn foreign_prefix(selector: &str, prefix: &str) -> (r: Option<String>)
    ensures
        match r {
            Some(p) => foreign_prefix_spec(selector@, prefix@) == Some(p@),
            None => foreign_prefix_spec(selector@, prefix@) is None,
        },
{
    match parse_ref(selector) {
        Some((p, _)) => if eq_ignore_ascii_case(p.as_str(), prefix) {
            None
        } else {
            Some(p)
        },
        None => None,
    }
}

/// The note naming the project a foreign prefix belongs to.
pub open spec fn wrong_prefix_spec(sel_prefix: Seq<char>, other_key: Seq<char>, project_key: Seq<char>) -> Seq<char> {
    " — prefix "@ + sel_prefix + " is project "@ + debug_quoted_spec(other_key) + ", not "@ + debug_quoted_spec(
        project_key,
    )
}

/// Name the project a foreign prefix belongs to.
pub fn wrong_prefix_note(sel_prefix: &str, other_key: &str, project_key: &str) -> (r: String)
    ensures
        r@ == wrong_prefix_spec(sel_prefix@, other_key@, project_key@),
{
    let mut r = string_of(" — prefix ");
    push_str(&mut r, sel_prefix);
    push_str(&mut r, " is project ");
    let q = debug_quoted(other_key);
    push_str(&mut r, q.as_str());
    push_str(&mut r, ", not ");
    let q2 = debug_quoted(project_key);
    push_str(&mut r, q2.as_str());
    r
}

/// The hint appended to a not-found ref: what was searched, the closest live
/// refs (when there are any), the foreign-prefix note (possibly empty) and the
/// project's own prefix.
pub open spec fn not_found_spec(
    selector: Seq<char>,
    project_key: Seq<char>,
    prefix: Seq<char>,
    nearest: Seq<Seq<char>>,
    wrong: Seq<char>,
) -> Seq<char> {
    " — no "@ + selector + " in "@ + project_key + (if nearest.len() == 0 {
        Seq::empty()
    } else {
        "; closest live: "@ + join(nearest, ", "@)
    }) + wrong + "; refs here use prefix "@ + prefix
}

/// Compose the not-found hint.
pub fn not_found_hint(selector: &str, project_key: &str, prefix: &str, nearest: &Vec<String>, wrong: &str) -> (r:
    String)
    ensures
        r@ == not_found_spec(selector@, project_key@, prefix@, strings_view(nearest@), wrong@),
{
    let mut r = string_of(" — no ");
    push_str(&mut r, selector);
    push_str(&mut r, " in ");
    push_str(&mut r, project_key);
    if nearest.len() > 0 {
        push_str(&mut r, "; closest live: ");
        let mut ws: Vec<Vec<char>> = Vec::new();
        let mut i: usize = 0;
        while i < nearest.len()
            invariant
                i <= nearest.len(),
                ws@.len() == i,
                forall|k: int| 0 <= k < i ==> (#[trigger] ws@[k])@ == nearest@[k]@,
            decreases nearest.len() - i,
        {
            ws.push(crate::text::chars_of(nearest[i].as_str()));
            i = i + 1;
        }
        assert(ws@.map_values(|w: Vec<char>| w@) =~= strings_view(nearest@));
        push_joined(&mut r, &ws, ", ");
    }
    push_str(&mut r, wrong);
    push_str(&mut r, "; refs here use prefix ");
    push_str(&mut r, prefix);
    r
}

// ---- the closest live refs ----------------------------------------------------

/// The counter of a ref-shaped string.
pub open spec fn counter_of(r: Seq<char>) -> Option<int> {
    match parse_ref_spec(r) {
        Some((_, n)) => Some(n),
        None => None,
    }
}

/// The ref-shaped strings among the first `n`, with their counters, in order.
pub open spec fn keyed_upto(refs: Seq<Seq<char>>, n: int) -> Seq<(int, Seq<char>)>
    decreases n,
{
    if n <= 0 {
        Seq::empty()
    } else {
        keyed_upto(refs, n - 1) + (match counter_of(refs[n - 1]) {
            Some(c) => seq![(c, refs[n - 1])],
            None => Seq::empty(),
        })
    }
}

/// Distance of counter `n` from the requested one (zero when there is none).
pub open spec fn dist(n: int, target: Option<int>) -> int {
    match target {
        Some(t) => if n >= t {
            n - t
        } else {
            t - n
        },
        None => 0,
    }
}

/// Entry `i` comes before entry `j`: nearer the requested counter, then the
/// lower counter, then the earlier entry.
pub open spec fn precedes(ks: Seq<(int, Seq<char>)>, target: Option<int>, i: int, j: int) -> bool {
    let di = dist(ks[i].0, target);
    let dj = dist(ks[j].0, target);
    di < dj || (di == dj && ks[i].0 < ks[j].0) || (di == dj && ks[i].0 == ks[j].0 && i < j)
}

/// `idx` lists, in order, the first `idx.len()` entries of `ks` by [`precedes`].
pub open spec fn first_by(ks: Seq<(int, Seq<char>)>, target: Option<int>, idx: Seq<int>) -> bool {
    &&& forall|a: int| 0 <= a < idx.len() ==> 0 <= #[trigger] idx[a] < ks.len()
    &&& forall|a: int, b: int| 0 <= a < b < idx.len() ==> precedes(ks, target, #[trigger] idx[a], #[trigger] idx[b])
    &&& forall|j: int, a: int|
        0 <= j < ks.len() && !idx.contains(j) && 0 <= a < idx.len() ==> #[trigger] precedes(ks, target, idx[a], j)
}

/// The closest `cap` live refs to the one requested: `live` are the project's
/// live refs; only ref-shaped ones count; nearest counter first, ties to the
/// lower counter. Without a counter in the request, the lowest counters.
pub open spec fn nearest_spec(live: Seq<Seq<char>>, selector: Seq<char>, cap: int, r: Seq<Seq<char>>) -> bool {
    let ks = keyed_upto(live, live.len() as int);
    let target = counter_of(selector);
    exists|idx: Seq<int>|
        first_by(ks, target, idx) && idx.len() == (if cap < ks.len() {
            cap
        } else {
            ks.len() as int
        }) && r == idx.map_values(|i: int| ks[i].1)
}

fn dist_exec(n: i64, target: Option<i64>) -> (r: i128)
    ensures
        r == dist(n as int, match target {
            Some(t) => Some(t as int),
            None => None,
        }),
{
    match target {
        Some(t) => if n >= t {
            n as i128 - t as i128
        } else {
            t as i128 - n as i128
        },
        None => 0,
    }
}

fn precedes_exec(ks: &Vec<(i64, String)>, target: Option<i64>, i: usize, j: usize, Ghost(sk): Ghost<Seq<(int, Seq<char>)>>) -> (r: bool)
    requires
        i < ks.len(),
        j < ks.len(),
        sk.len() == ks.len(),
        forall|k: int| 0 <= k < ks.len() ==> (#[trigger] sk[k]).0 == ks@[k].0 && sk[k].1 == ks@[k].1@,
    ensures
        r == precedes(sk, match target {
            Some(t) => Some(t as int),
            None => None,
        }, i as int, j as int),
{
    let di = dist_exec(ks[i].0, target);
    let dj = dist_exec(ks[j].0, target);
    assert(sk[i as int].0 == ks@[i as int].0);
    assert(sk[j as int].0 == ks@[j as int].0);
    di < dj || (di == dj && ks[i].0 < ks[j].0) || (di == dj && ks[i].0 == ks[j].0 && i < j)
}

proof fn lemma_precedes(ks: Seq<(int, Seq<char>)>, target: Option<int>, i: int, j: int, k: int)
    ensures
        !precedes(ks, target, i, i),
        i != j ==> precedes(ks, target, i, j) || precedes(ks, target, j, i),
        precedes(ks, target, i, j) ==> !precedes(ks, target, j, i),
        precedes(ks, target, i, j) && precedes(ks, target, j, k) ==> precedes(ks, target, i, k),
{
}

/// The closest live refs to a not-found selector, at most `cap` of them.
pub fn nearest_live_refs(live: &Vec<String>, selector: &str, cap: usize) -> (r: Vec<String>)
    ensures
        nearest_spec(strings_view(live@), selector@, cap as int, strings_view(r@)),
{
    let ghost lv = strings_view(live@);
    let mut ks: Vec<(i64, String)> = Vec::new();
    let mut i: usize = 0;
    while i < live.len()
        invariant
            i <= live.len(),
            lv == strings_view(live@),
            ks@.len() == keyed_upto(lv, i as int).len(),
            forall|k: int| 0 <= k < ks@.len() ==> (#[trigger] keyed_upto(lv, i as int)[k]).0 == ks@[k].0
                && keyed_upto(lv, i as int)[k].1 == ks@[k].1@,
        decreases live.len() - i,
    {
        let ghost pre = keyed_upto(lv, i as int);
        let ghost before = ks@;
        match parse_ref(live[i].as_str()) {
            Some((_, n)) => {
                ks.push((n, live[i].clone()));
                proof {
                    let now = keyed_upto(lv, i + 1);
                    assert(lv[i as int] == live@[i as int]@);
                    assert(now == pre.push((n as int, lv[i as int])));
                    assert forall|k: int| 0 <= k < ks@.len() implies (#[trigger] now[k]).0 == ks@[k].0 && now[k].1 == ks@[k].1@ by {
                        if k < before.len() {
                            assert(ks@[k] == before[k]);
                            assert(now[k] == pre[k]);
                        }
                    }
                }
            },
            None => {
                proof {
                    assert(lv[i as int] == live@[i as int]@);
                    assert(keyed_upto(lv, i + 1) =~= pre);
                }
            },
        }
        i = i + 1;
    }
    let ghost sk = keyed_upto(lv, lv.len() as int);
    let target = match parse_ref(selector) {
        Some((_, n)) => Some(n),
        None => None,
    };
    let ghost tg = counter_of(selector@);
    assert(tg == match target {
        Some(t) => Some(t as int),
        None => None,
    });
    let want = if cap < ks.len() {
        cap
    } else {
        ks.len()
    };
    let mut idx: Vec<usize> = Vec::new();
    while idx.len() < want
        invariant
            want <= ks.len(),
            sk.len() == ks.len(),
            tg == match target {
                Some(t) => Some(t as int),
                None => None,
            },
            forall|k: int| 0 <= k < ks.len() ==> (#[trigger] sk[k]).0 == ks@[k].0 && sk[k].1 == ks@[k].1@,
            idx@.len() <= want,
            first_by(sk, tg, idx@.map_values(|x: usize| x as int)),
        decreases want - idx@.len(),
    {
        let ghost ci = idx@.map_values(|x: usize| x as int);
        let mut best: Option<usize> = None;
        let mut j: usize = 0;
        while j < ks.len()
            invariant
                j <= ks.len(),
                sk.len() == ks.len(),
                forall|k: int| 0 <= k < ks.len() ==> (#[trigger] sk[k]).0 == ks@[k].0 && sk[k].1 == ks@[k].1@,
                tg == match target {
                    Some(t) => Some(t as int),
                    None => None,
                },
                ci == idx@.map_values(|x: usize| x as int),
                first_by(sk, tg, ci),
                ci.len() < ks.len(),
                match best {
                    Some(b) => b < j && !ci.contains(b as int) && forall|q: int|
                        0 <= q < j && !ci.contains(q) ==> q == b || precedes(sk, tg, b as int, q),
                    None => forall|q: int| 0 <= q < j ==> ci.contains(q),
                },
            decreases ks.len() - j,
        {
            proof {
                if idx@.len() > 0 {
                    assert(ci[ci.len() - 1] == idx@[idx@.len() - 1] as int);
                }
            }
            let candidate = if idx.len() == 0 {
                true
            } else {
                precedes_exec(&ks, target, idx[idx.len() - 1], j, Ghost(sk))
            };
            proof {
                if ci.len() > 0 {
                    let last = ci[ci.len() - 1];
                    assert(idx@[idx@.len() - 1] as int == last);
                    if ci.contains(j as int) {
                        let a = choose|a: int| 0 <= a < ci.len() && ci[a] == j as int;
                        if a < ci.len() - 1 {
                            assert(precedes(sk, tg, ci[a], ci[ci.len() - 1]));
                            lemma_precedes(sk, tg, j as int, last, j as int);
                        } else {
                            lemma_precedes(sk, tg, last, last, last);
                        }
                        assert(!candidate);
                    } else {
                        assert(precedes(sk, tg, ci[ci.len() - 1], j as int));
                        assert(candidate);
                    }
                } else {
                    assert(!ci.contains(j as int));
                }
                assert(candidate == !ci.contains(j as int));
            }
            if candidate {
                let better = match best {
                    None => true,
                    Some(b) => precedes_exec(&ks, target, j, b, Ghost(sk)),
                };
                if better {
                    proof {
                        if let Some(b) = best {
                            assert forall|q: int| 0 <= q < j + 1 && !ci.contains(q) implies q == j || precedes(sk, tg, j as int, q) by {
                                if q != j && q != b {
                                    lemma_precedes(sk, tg, j as int, b as int, q);
                                }
                            }
                        }
                    }
                    best = Some(j);
                } else {
                    proof {
                        let b = best.unwrap();
                        lemma_precedes(sk, tg, j as int, b as int, j as int);
                    }
                }
            }
            j = j + 1;
        }
        proof {
            if best is None {
                // Every entry is already chosen, but fewer than all are.
                broadcast use vstd::seq_lib::group_seq_properties;
                let range = vstd::set_lib::set_int_range(0, ks.len() as int);
                let cs = ci.to_set();
                assert forall|q: int| range.contains(q) implies cs.contains(q) by {
                    assert(ci.contains(q));
                }
                vstd::set_lib::lemma_int_range(0, ks.len() as int);
                vstd::set_lib::lemma_len_subset(range, cs);
                ci.lemma_cardinality_of_set();
                assert(false);
            }
        }
        let b = best.unwrap();
        let ghost old_ci = ci;
        idx.push(b);
        proof {
            let nci = idx@.map_values(|x: usize| x as int);
            assert(nci =~= old_ci.push(b as int));
            assert forall|a: int, c: int| 0 <= a < c < nci.len() implies precedes(sk, tg, #[trigger] nci[a], #[trigger] nci[c]) by {
                if c == nci.len() - 1 {
                    assert(nci[c] == b as int);
                    assert(nci[a] == old_ci[a]);
                } else {
                    assert(nci[a] == old_ci[a] && nci[c] == old_ci[c]);
                }
            }
            assert forall|q: int, a: int|
                0 <= q < sk.len() && !nci.contains(q) && 0 <= a < nci.len() implies #[trigger] precedes(sk, tg, nci[a], q) by {
                assert(!old_ci.contains(q)) by {
                    if old_ci.contains(q) {
                        let w = choose|w: int| 0 <= w < old_ci.len() && old_ci[w] == q;
                        assert(nci[w] == q);
                    }
                }
                assert(q != b as int) by {
                    if q == b as int {
                        assert(nci[nci.len() - 1] == q);
                    }
                }
                if a == nci.len() - 1 {
                    assert(nci[a] == b as int);
                } else {
                    assert(nci[a] == old_ci[a]);
                }
            }
            assert forall|a: int| 0 <= a < nci.len() implies 0 <= #[trigger] nci[a] < sk.len() by {
                if a < old_ci.len() {
                    assert(nci[a] == old_ci[a]);
                }
            }
        }
    }
    let mut out: Vec<String> = Vec::new();
    let mut k: usize = 0;
    while k < idx.len()
        invariant
            k <= idx.len(),
            sk.len() == ks.len(),
            forall|q: int| 0 <= q < ks.len() ==> (#[trigger] sk[q]).0 == ks@[q].0 && sk[q].1 == ks@[q].1@,
            first_by(sk, tg, idx@.map_values(|x: usize| x as int)),
            out@.len() == k,
            forall|q: int| 0 <= q < k ==> (#[trigger] out@[q])@ == sk[idx@[q] as int].1,
        decreases idx.len() - k,
    {
        let p = idx[k];
        assert(idx@.map_values(|x: usize| x as int)[k as int] == p as int);
        out.push(ks[p].1.clone());
        k = k + 1;
    }
    proof {
        let ci = idx@.map_values(|x: usize| x as int);
        assert(strings_view(out@) =~= ci.map_values(|i: int| sk[i].1));
    }
    out
}

// ---- dead refs ----------------------------------------------------------------

/// A "the ref you used is dead" advisory raised beside a read or write that
/// resolved a superseded or archived node: the ref asked for, and the live
/// refs its lineage forwards to (empty when there is no live successor).
#[derive(Debug, Clone, PartialEq, Eq)]
pub struct StaleRef {
    pub requested: String,
    pub resolved_to: Vec<String>,
}

/// The advisory for a resolved node of `status`: none when it is live;
/// otherwise its canonical ref (the ref as asked when that is unknown) and its
/// live lineage descendants.
pub fn stale_ref_for(status: Status, requested: &str, canonical: Option<String>, live_descendants: Vec<String>) -> (r:
    Option<StaleRef>)
    ensures
        match r {
            None => !status.is_dead_spec(),
            Some(s) => status.is_dead_spec() && s.resolved_to == live_descendants && s.requested@ == (
            match canonical {
                Some(c) => c@,
                None => requested@,
            }),
        },
{
    if !status.is_dead() {
        return None;
    }
    let requested = match canonical {
        Some(c) => c,
        None => string_of(requested),
    };
    Some(StaleRef { requested, resolved_to: live_descendants })
}

} // verus!
