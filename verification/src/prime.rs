//! `prime`: the one-shot session-context block. Project state, the committed
//! queue with the dispatch-eligible items flagged, in-progress and waiting work
//! with owners, the load-bearing conventions and a compact untriaged inbox, each
//! list capped with an explicit truncation note.

use vstd::prelude::*;
use crate::model::{owner_kind_name, status_name, wait_state_name, Item, OwnerKind, Status, WaitState};
use crate::text::{contains_str, digits_value, int_decimal, lemma_nat_digits_read_back, nat_digits, push_i64, push_str, push_usize, string_of, strings_view};

verus! {

/// Committed-ready queue items shown before truncating.
pub const PRIME_QUEUE_CAP: usize = 8;

/// In-progress and waiting items shown before truncating.
pub const PRIME_ACTIVE_CAP: usize = 8;

/// Untriaged inbox floaters shown for triage.
pub const PRIME_INBOX_CAP: usize = 5;

/// One queue line: a committed-ready item, flagged when `next` would return it.
#[derive(Debug, Clone)]
pub struct PrimeQueueItem {
    pub reference: String,
    pub title: String,
    pub next_eligible: bool,
    pub owner: Option<OwnerKind>,
}

/// One in-progress or waiting line, with owner and what it waits on.
#[derive(Debug, Clone)]
pub struct PrimeActiveItem {
    pub reference: String,
    pub title: String,
    pub status: Status,
    pub owner: Option<OwnerKind>,
    pub wait: Option<WaitState>,
}

/// One untriaged inbox floater.
#[derive(Debug, Clone)]
pub struct PrimeInboxItem {
    pub reference: String,
    pub title: String,
}

/// The assembled session-context block.
#[derive(Debug, Clone)]
pub struct Prime {
    pub project: String,
    pub prefix: String,
    pub total: i64,
    pub committed: i64,
    pub icebox: i64,
    pub sync_pending: i64,
    pub queue: Vec<PrimeQueueItem>,
    pub queue_total: usize,
    pub next_eligible_total: usize,
    pub active: Vec<PrimeActiveItem>,
    pub active_total: usize,
    pub inbox_untriaged: usize,
    pub inbox: Vec<PrimeInboxItem>,
    pub grooming_nudge: Option<String>,
}

// ---- rendering --------------------------------------------------------------

/// The sync clause of the header, when requested.
pub open spec fn sync_clause(include_sync: bool, pending: int) -> Seq<char> {
    if !include_sync {
        Seq::empty()
    } else if pending == 0 {
        ", sync clean"@
    } else {
        ", sync "@ + int_decimal(pending) + " pending"@
    }
}

/// The header line.
pub open spec fn header_spec(p: Prime, include_sync: bool) -> Seq<char> {
    "PROJECT "@ + p.project@ + " ("@ + p.prefix@ + ") — "@ + int_decimal(p.total as int)
        + " items, "@ + int_decimal(p.committed as int) + " committed, "@ + int_decimal(
        p.icebox as int,
    ) + " icebox"@ + sync_clause(include_sync, p.sync_pending as int) + "\n"@
}

/// One queue line: `>` marks a dispatchable item; the owner follows in brackets.
pub open spec fn queue_line(q: PrimeQueueItem) -> Seq<char> {
    "  "@ + (if q.next_eligible {
        ">"@
    } else {
        " "@
    }) + " "@ + q.reference@ + "  "@ + q.title@ + (match q.owner {
        Some(o) => " ["@ + owner_kind_name(o) + "]"@,
        None => Seq::empty(),
    }) + "\n"@
}

/// The queue lines, in order.
pub open spec fn queue_lines(qs: Seq<PrimeQueueItem>) -> Seq<char>
    decreases qs.len(),
{
    if qs.len() == 0 {
        Seq::empty()
    } else {
        queue_lines(qs.drop_last()) + queue_line(qs.last())
    }
}

/// The truncation note of a capped list, when items were left out.
pub open spec fn more_note(total: int, shown: int, tail: Seq<char>) -> Seq<char> {
    if total > shown {
        "  … +"@ + nat_digits((total - shown) as nat) + tail
    } else {
        Seq::empty()
    }
}

/// The truncation note of a capped list counts exactly what was left out:
/// when `shown` of `total` items are listed and some are missing, the note is
/// `  … +`, a decimal number and `tail`, and that number plus `shown` is
/// `total`; when nothing is missing there is no note.
pub proof fn lemma_more_note_counts_the_rest(total: int, shown: int, tail: Seq<char>)
    requires
        0 <= shown,
    ensures
        shown < total ==> ({
            let note = more_note(total, shown, tail);
            let count = note.subrange(5, note.len() - tail.len());
            &&& note == "  … +"@ + count + tail
            &&& shown + digits_value(count) == total
        }),
        total <= shown ==> more_note(total, shown, tail) == Seq::<char>::empty(),
{
    if shown < total {
        reveal_strlit("  … +");
        let n = (total - shown) as nat;
        lemma_nat_digits_read_back(n);
        let note = more_note(total, shown, tail);
        assert(note == "  … +"@ + nat_digits(n) + tail);
        assert(note.subrange(5, note.len() - tail.len()) =~= nat_digits(n));
    }
}

/// The queue section.
pub open spec fn queue_block(p: Prime) -> Seq<char> {
    "\nQUEUE (committed-ready: "@ + nat_digits(p.queue_total as nat) + ", dispatchable now: "@
        + nat_digits(p.next_eligible_total as nat) + ") — '>' = next-eligible\n"@ + (if p.queue.len()
        == 0 {
        "  (none)\n"@
    } else {
        queue_lines(p.queue@) + more_note(
            p.queue_total as int,
            p.queue.len() as int,
            " more (haven next / item list)\n"@,
        )
    })
}

/// One active line: ref, title, owner (or `unassigned`) and wait-state, status.
pub open spec fn active_line(a: PrimeActiveItem) -> Seq<char> {
    "  "@ + a.reference@ + " "@ + a.title@ + "  ["@ + (match a.owner {
        Some(o) => owner_kind_name(o),
        None => "unassigned"@,
    }) + (match a.wait {
        Some(w) => " waiting:"@ + wait_state_name(w),
        None => Seq::empty(),
    }) + "] "@ + status_name(a.status) + "\n"@
}

/// The active lines, in order.
pub open spec fn active_lines(xs: Seq<PrimeActiveItem>) -> Seq<char>
    decreases xs.len(),
{
    if xs.len() == 0 {
        Seq::empty()
    } else {
        active_lines(xs.drop_last()) + active_line(xs.last())
    }
}

/// The in-progress / waiting section.
pub open spec fn active_block(p: Prime) -> Seq<char> {
    "\nIN-PROGRESS / WAITING ("@ + nat_digits(p.active_total as nat) + ")\n"@ + (if p.active.len()
        == 0 {
        "  (none)\n"@
    } else {
        active_lines(p.active@) + more_note(p.active_total as int, p.active.len() as int, " more\n"@)
    })
}

/// The fixed conventions section.
pub open spec fn conventions_block() -> Seq<char> {
    "\nCONVENTIONS\n"@ + "  - Mutate the graph ONLY via haven ops; never hand-edit the DB.\n"@
        + "  - body is a one-line summary, NOT content — real content lives in files/artifacts under the item.\n"@
        + "  - Close the loop: finish work with `item complete <ref> --evidence \"…\"` (it reports what it unblocked).\n"@
        + "  - Capture findings/gaps as floating items as they surface — don't just mention them in chat.\n"@
        + "  - CLI has a sticky current-project: pass -p <project> explicitly; MCP is per-call (project arg).\n"@
}

/// One inbox line.
pub open spec fn inbox_line(f: PrimeInboxItem) -> Seq<char> {
    "  "@ + f.reference@ + " "@ + f.title@ + "\n"@
}

/// The inbox lines, in order.
pub open spec fn inbox_lines(xs: Seq<PrimeInboxItem>) -> Seq<char>
    decreases xs.len(),
{
    if xs.len() == 0 {
        Seq::empty()
    } else {
        inbox_lines(xs.drop_last()) + inbox_line(xs.last())
    }
}

/// The inbox section, with the grooming nudge when present.
pub open spec fn inbox_block(p: Prime) -> Seq<char> {
    "\nINBOX (untriaged: "@ + nat_digits(p.inbox_untriaged as nat) + ")\n"@ + (if p.inbox.len()
        == 0 {
        "  (empty)\n"@
    } else {
        inbox_lines(p.inbox@) + more_note(
            p.inbox_untriaged as int,
            p.inbox.len() as int,
            " more to triage (haven inbox)\n"@,
        )
    }) + (match p.grooming_nudge {
        Some(n) => "  ! "@ + n@ + "\n"@,
        None => Seq::empty(),
    })
}

/// The whole block.
pub open spec fn prime_render_spec(p: Prime, include_sync: bool) -> Seq<char> {
    header_spec(p, include_sync) + queue_block(p) + active_block(p) + conventions_block()
        + inbox_block(p)
}

fn push_more(out: &mut String, total: usize, shown: usize, tail: &str)
    ensures
        final(out)@ == old(out)@ + more_note(total as int, shown as int, tail@),
{
    if total > shown {
        push_str(out, "  … +");
        push_usize(out, total - shown);
        push_str(out, tail);
    } else {
        assert(old(out)@ + Seq::<char>::empty() =~= old(out)@);
    }
}

fn push_header(out: &mut String, p: &Prime, include_sync: bool)
    ensures
        final(out)@ == old(out)@ + header_spec(*p, include_sync),
{
    push_str(out, "PROJECT ");
    push_str(out, p.project.as_str());
    push_str(out, " (");
    push_str(out, p.prefix.as_str());
    push_str(out, ") — ");
    push_i64(out, p.total);
    push_str(out, " items, ");
    push_i64(out, p.committed);
    push_str(out, " committed, ");
    push_i64(out, p.icebox);
    push_str(out, " icebox");
    if include_sync {
        if p.sync_pending == 0 {
            push_str(out, ", sync clean");
        } else {
            push_str(out, ", sync ");
            push_i64(out, p.sync_pending);
            push_str(out, " pending");
        }
    }
    push_str(out, "\n");
    assert(out@ =~= old(out)@ + header_spec(*p, include_sync));
}

fn push_queue_line(out: &mut String, q: &PrimeQueueItem)
    ensures
        final(out)@ == old(out)@ + queue_line(*q),
{
    push_str(out, "  ");
    if q.next_eligible {
        push_str(out, ">");
    } else {
        push_str(out, " ");
    }
    push_str(out, " ");
    push_str(out, q.reference.as_str());
    push_str(out, "  ");
    push_str(out, q.title.as_str());
    match q.owner {
        Some(o) => {
            push_str(out, " [");
            push_str(out, o.as_str());
            push_str(out, "]");
        },
        None => {},
    }
    push_str(out, "\n");
    assert(out@ =~= old(out)@ + queue_line(*q));
}

#[verifier::rlimit(50)]
fn push_active_line(out: &mut String, a: &PrimeActiveItem)
    ensures
        final(out)@ == old(out)@ + active_line(*a),
{
    push_str(out, "  ");
    push_str(out, a.reference.as_str());
    push_str(out, " ");
    push_str(out, a.title.as_str());
    push_str(out, "  [");
    match a.owner {
        Some(o) => push_str(out, o.as_str()),
        None => push_str(out, "unassigned"),
    }
    match a.wait {
        Some(w) => {
            push_str(out, " waiting:");
            push_str(out, w.as_str());
        },
        None => {},
    }
    push_str(out, "] ");
    push_str(out, a.status.as_str());
    push_str(out, "\n");
    assert(out@ =~= old(out)@ + active_line(*a));
}

fn push_queue(out: &mut String, p: &Prime)
    ensures
        final(out)@ == old(out)@ + queue_block(*p),
{
    let ghost start = out@;
    push_str(out, "\nQUEUE (committed-ready: ");
    push_usize(out, p.queue_total);
    push_str(out, ", dispatchable now: ");
    push_usize(out, p.next_eligible_total);
    push_str(out, ") — '>' = next-eligible\n");
    if p.queue.len() == 0 {
        push_str(out, "  (none)\n");
    } else {
        let ghost mid = out@;
        let mut i: usize = 0;
        while i < p.queue.len()
            invariant
                i <= p.queue.len(),
                out@ == mid + queue_lines(p.queue@.take(i as int)),
            decreases p.queue.len() - i,
        {
            let q = &p.queue[i];
            let ghost before = out@;
            push_queue_line(out, q);
            proof {
                assert(out@ =~= before + queue_line(*q));
                assert(p.queue@.take(i + 1).drop_last() =~= p.queue@.take(i as int));
            }
            i = i + 1;
        }
        assert(p.queue@.take(p.queue.len() as int) =~= p.queue@);
        push_more(out, p.queue_total, p.queue.len(), " more (haven next / item list)\n");
    }
    assert(out@ =~= start + queue_block(*p));
}

fn push_active(out: &mut String, p: &Prime)
    ensures
        final(out)@ == old(out)@ + active_block(*p),
{
    let ghost start = out@;
    push_str(out, "\nIN-PROGRESS / WAITING (");
    push_usize(out, p.active_total);
    push_str(out, ")\n");
    if p.active.len() == 0 {
        push_str(out, "  (none)\n");
    } else {
        let ghost mid = out@;
        let mut i: usize = 0;
        while i < p.active.len()
            invariant
                i <= p.active.len(),
                out@ == mid + active_lines(p.active@.take(i as int)),
            decreases p.active.len() - i,
        {
            let a = &p.active[i];
            let ghost before = out@;
            push_active_line(out, a);
            proof {
                assert(out@ =~= before + active_line(*a));
                assert(p.active@.take(i + 1).drop_last() =~= p.active@.take(i as int));
            }
            i = i + 1;
        }
        assert(p.active@.take(p.active.len() as int) =~= p.active@);
        push_more(out, p.active_total, p.active.len(), " more\n");
    }
    assert(out@ =~= start + active_block(*p));
}

fn push_conventions(out: &mut String)
    ensures
        final(out)@ == old(out)@ + conventions_block(),
{
    push_str(out, "\nCONVENTIONS\n");
    push_str(out, "  - Mutate the graph ONLY via haven ops; never hand-edit the DB.\n");
    push_str(
        out,
        "  - body is a one-line summary, NOT content — real content lives in files/artifacts under the item.\n",
    );
    push_str(
        out,
        "  - Close the loop: finish work with `item complete <ref> --evidence \"…\"` (it reports what it unblocked).\n",
    );
    push_str(
        out,
        "  - Capture findings/gaps as floating items as they surface — don't just mention them in chat.\n",
    );
    push_str(
        out,
        "  - CLI has a sticky current-project: pass -p <project> explicitly; MCP is per-call (project arg).\n",
    );
    assert(out@ =~= old(out)@ + conventions_block());
}

#[verifier::spinoff_prover]
fn push_inbox(out: &mut String, p: &Prime)
    ensures
        final(out)@ == old(out)@ + inbox_block(*p),
{
    let ghost start = out@;
    push_str(out, "\nINBOX (untriaged: ");
    push_usize(out, p.inbox_untriaged);
    push_str(out, ")\n");
    if p.inbox.len() == 0 {
        push_str(out, "  (empty)\n");
    } else {
        let ghost mid = out@;
        let mut i: usize = 0;
        while i < p.inbox.len()
            invariant
                i <= p.inbox.len(),
                out@ == mid + inbox_lines(p.inbox@.take(i as int)),
            decreases p.inbox.len() - i,
        {
            let f = &p.inbox[i];
            let ghost before = out@;
            push_str(out, "  ");
            push_str(out, f.reference.as_str());
            push_str(out, " ");
            push_str(out, f.title.as_str());
            push_str(out, "\n");
            proof {
                assert(out@ =~= before + inbox_line(*f));
                assert(p.inbox@.take(i + 1).drop_last() =~= p.inbox@.take(i as int));
            }
            i = i + 1;
        }
        assert(p.inbox@.take(p.inbox.len() as int) =~= p.inbox@);
        push_more(out, p.inbox_untriaged, p.inbox.len(), " more to triage (haven inbox)\n");
    }
    match &p.grooming_nudge {
        Some(n) => {
            push_str(out, "  ! ");
            push_str(out, n.as_str());
            push_str(out, "\n");
        },
        None => {},
    }
    assert(out@ =~= start + inbox_block(*p));
}

impl Prime {
    /// Render the block without the sync queue.
    pub fn render(&self) -> (s: String)
        ensures
            s@ == prime_render_spec(*self, false),
    {
        self.render_with_sync(false)
    }

    /// Render the compact session-context block: one line per item, every list
    /// capped with an explicit `… +N more` note, and the sync queue in the
    /// header only when `include_sync`.
    pub fn render_with_sync(&self, include_sync: bool) -> (s: String)
        ensures
            s@ == prime_render_spec(*self, include_sync),
    {
        let mut out = String::new();
        push_header(&mut out, self, include_sync);
        push_queue(&mut out, self);
        push_active(&mut out, self);
        push_conventions(&mut out);
        push_inbox(&mut out, self);
        assert(out@ =~= prime_render_spec(*self, include_sync));
        out
    }
}

} // verus!

verus! {

// ---- assembly ---------------------------------------------------------------

/// The queue line of a committed-ready item.
pub open spec fn queue_item_of(it: Item, next_refs: Seq<Seq<char>>) -> PrimeQueueItem {
    PrimeQueueItem {
        reference: it.reference,
        title: it.title,
        next_eligible: next_refs.contains(it.reference@),
        owner: it.owner_kind,
    }
}

/// The active line of an in-progress or waiting item.
pub open spec fn active_item_of(it: Item) -> PrimeActiveItem {
    PrimeActiveItem {
        reference: it.reference,
        title: it.title,
        status: it.status,
        owner: it.owner_kind,
        wait: it.wait_state,
    }
}

/// The inbox line of an untriaged floater.
pub open spec fn inbox_item_of(it: Item) -> PrimeInboxItem {
    PrimeInboxItem { reference: it.reference, title: it.title }
}

/// `s` with every item whose ref already occurred dropped (first one kept).
pub open spec fn dedup_by_ref(s: Seq<Item>) -> Seq<Item>
    decreases s.len(),
{
    if s.len() == 0 {
        s
    } else {
        let d = dedup_by_ref(s.drop_last());
        if exists|k: int| 0 <= k < d.len() && #[trigger] d[k].reference@ == s.last().reference@ {
            d
        } else {
            d.push(s.last())
        }
    }
}

/// The first `cap` items of `s` (all of them when there are fewer).
pub open spec fn capped<A>(s: Seq<A>, cap: int) -> Seq<A> {
    if s.len() <= cap {
        s
    } else {
        s.take(cap)
    }
}

/// The first `cap` items of `v`, each mapped to its queue line.
fn queue_of(v: Vec<Item>, next_refs: &Vec<String>, cap: usize) -> (r: Vec<PrimeQueueItem>)
    ensures
        r@ == capped(v@, cap as int).map_values(|it: Item| queue_item_of(it, strings_view(next_refs@))),
{
    let ghost orig = v@;
    let ghost f = |it: Item| queue_item_of(it, strings_view(next_refs@));
    let len = v.len();
    let mut rest = v;
    let mut out: Vec<PrimeQueueItem> = Vec::new();
    let mut k: usize = 0;
    while k < cap && rest.len() > 0
        invariant
            k <= orig.len(),
            orig.len() == len,
            rest.len() + k == orig.len(),
            rest@ == orig.skip(k as int),
            k <= cap,
            f == (|it: Item| queue_item_of(it, strings_view(next_refs@))),
            out@ == orig.take(k as int).map_values(f),
        decreases rest.len(),
    {
        proof {
            assert(orig.skip(k as int)[0] == orig[k as int]);
            assert(orig.skip(k as int).remove(0) =~= orig.skip(k + 1));
        }
        let it = rest.remove(0);
        let eligible = contains_str(next_refs, it.reference.as_str());
        out.push(PrimeQueueItem { reference: it.reference, title: it.title, next_eligible: eligible, owner: it.owner_kind });
        proof {
            assert(orig.take(k + 1).map_values(f) =~= orig.take(k as int).map_values(f).push(f(orig[k as int])));
        }
        k = k + 1;
    }
    proof {
        if orig.len() <= cap {
            assert(orig.take(k as int) =~= orig);
        }
    }
    out
}

/// The first `cap` items of `v`, each mapped to its inbox line.
fn inbox_of(v: Vec<Item>, cap: usize) -> (r: Vec<PrimeInboxItem>)
    ensures
        r@ == capped(v@, cap as int).map_values(|it: Item| inbox_item_of(it)),
{
    let ghost orig = v@;
    let ghost f = |it: Item| inbox_item_of(it);
    let len = v.len();
    let mut rest = v;
    let mut out: Vec<PrimeInboxItem> = Vec::new();
    let mut k: usize = 0;
    while k < cap && rest.len() > 0
        invariant
            k <= orig.len(),
            orig.len() == len,
            rest.len() + k == orig.len(),
            rest@ == orig.skip(k as int),
            k <= cap,
            f == (|it: Item| inbox_item_of(it)),
            out@ == orig.take(k as int).map_values(f),
        decreases rest.len(),
    {
        proof {
            assert(orig.skip(k as int)[0] == orig[k as int]);
            assert(orig.skip(k as int).remove(0) =~= orig.skip(k + 1));
        }
        let it = rest.remove(0);
        out.push(PrimeInboxItem { reference: it.reference, title: it.title });
        proof {
            assert(orig.take(k + 1).map_values(f) =~= orig.take(k as int).map_values(f).push(f(orig[k as int])));
        }
        k = k + 1;
    }
    proof {
        if orig.len() <= cap {
            assert(orig.take(k as int) =~= orig);
        }
    }
    out
}

/// The active lines of `v` with repeated refs dropped (first occurrence kept).
fn active_of(v: Vec<Item>) -> (r: Vec<PrimeActiveItem>)
    ensures
        r@ == dedup_by_ref(v@).map_values(|it: Item| active_item_of(it)),
{
    let ghost orig = v@;
    let ghost f = |it: Item| active_item_of(it);
    let len = v.len();
    let mut rest = v;
    let mut out: Vec<PrimeActiveItem> = Vec::new();
    let mut seen: Vec<String> = Vec::new();
    let mut k: usize = 0;
    while rest.len() > 0
        invariant
            k <= orig.len(),
            orig.len() == len,
            rest.len() + k == orig.len(),
            rest@ == orig.skip(k as int),
            f == (|it: Item| active_item_of(it)),
            out@ == dedup_by_ref(orig.take(k as int)).map_values(f),
            seen.len() == dedup_by_ref(orig.take(k as int)).len(),
            forall|j: int| 0 <= j < seen.len() ==> #[trigger] seen@[j]@ == dedup_by_ref(orig.take(k as int))[j].reference@,
        decreases rest.len(),
    {
        let ghost d = dedup_by_ref(orig.take(k as int));
        proof {
            assert(orig.skip(k as int)[0] == orig[k as int]);
            assert(orig.skip(k as int).remove(0) =~= orig.skip(k + 1));
            assert(orig.take(k + 1).drop_last() =~= orig.take(k as int));
        }
        let it = rest.remove(0);
        let dup = contains_str(&seen, it.reference.as_str());
        proof {
            if dup {
                let j = choose|j: int| 0 <= j < seen.len() && strings_view(seen@)[j] == it.reference@;
                assert(d[j].reference@ == orig.take(k + 1).last().reference@);
            } else {
                assert forall|j: int| 0 <= j < d.len() implies #[trigger] d[j].reference@ != it.reference@ by {
                    assert(strings_view(seen@)[j] == seen@[j]@);
                }
            }
        }
        if !dup {
            seen.push(it.reference.clone());
            out.push(PrimeActiveItem { reference: it.reference, title: it.title, status: it.status, owner: it.owner_kind, wait: it.wait_state });
            proof {
                assert(dedup_by_ref(orig.take(k + 1)) =~= d.push(orig[k as int]));
                assert(d.push(orig[k as int]).map_values(f) =~= d.map_values(f).push(f(orig[k as int])));
            }
        }
        k = k + 1;
    }
    assert(orig.take(k as int) =~= orig);
    out
}

/// The number of distinct strings in `v`.
fn distinct_count(v: &Vec<String>) -> (n: usize)
    ensures
        n as int == strings_view(v@).to_set().len(),
{
    let mut seen: Vec<String> = Vec::new();
    let mut i: usize = 0;
    while i < v.len()
        invariant
            i <= v.len(),
            strings_view(seen@).no_duplicates(),
            strings_view(seen@).to_set() == strings_view(v@.take(i as int)).to_set(),
        decreases v.len() - i,
    {
        let ghost before = strings_view(seen@);
        proof {
            assert(strings_view(v@.take(i + 1)) =~= strings_view(v@.take(i as int)).push(v@[i as int]@));
            strings_view(v@.take(i as int)).lemma_push_to_set_commute(v@[i as int]@);
        }
        if !contains_str(&seen, v[i].as_str()) {
            seen.push(v[i].clone());
            proof {
                let after = strings_view(seen@);
                assert(after =~= before.push(v@[i as int]@));
                before.lemma_push_to_set_commute(v@[i as int]@);
                assert forall|a: int, b: int| 0 <= a < b < after.len() implies after[a] != after[b] by {
                    if b == after.len() - 1 {
                        assert(before.contains(before[a]));
                    }
                }
            }
        } else {
            assert(before.to_set().insert(v@[i as int]@) =~= before.to_set());
        }
        i = i + 1;
    }
    proof {
        assert(v@.take(v.len() as int) =~= v@);
        strings_view(seen@).unique_seq_to_set();
    }
    seen.len()
}

/// Assemble the session-context block from the canonical read surfaces: the
/// project's counts, the refs `next` returns, the committed-ready items, the
/// in-progress items followed by the items waiting on a human, a dependency
/// and something external, the untriaged count with its floaters, and the
/// grooming nudge. The queue keeps the first 8 committed-ready items (flagging
/// those `next` returns), the active list drops repeated refs and keeps the
/// first 8, the inbox keeps the first 5.
pub fn assemble_prime(
    project: String,
    prefix: String,
    counts: (i64, i64, i64, i64),
    next_refs: &Vec<String>,
    committed_ready: Vec<Item>,
    active_candidates: Vec<Item>,
    inbox_untriaged: usize,
    inbox: Vec<Item>,
    grooming_nudge: Option<String>,
) -> (p: Prime)
    ensures
        p.project == project,
        p.prefix == prefix,
        (p.total, p.committed, p.icebox, p.sync_pending) == counts,
        p.queue_total == committed_ready.len(),
        p.next_eligible_total as int == strings_view(next_refs@).to_set().len(),
        p.queue@ == capped(committed_ready@, PRIME_QUEUE_CAP as int).map_values(
            |it: Item| queue_item_of(it, strings_view(next_refs@)),
        ),
        p.active_total as int == dedup_by_ref(active_candidates@).len(),
        p.active@ == capped(dedup_by_ref(active_candidates@), PRIME_ACTIVE_CAP as int).map_values(
            |it: Item| active_item_of(it),
        ),
        p.inbox_untriaged == inbox_untriaged,
        p.inbox@ == capped(inbox@, PRIME_INBOX_CAP as int).map_values(|it: Item| inbox_item_of(it)),
        p.grooming_nudge == grooming_nudge,
{
    let queue_total = committed_ready.len();
    let next_eligible_total = distinct_count(next_refs);
    let queue = queue_of(committed_ready, next_refs, PRIME_QUEUE_CAP);
    let mut active = active_of(active_candidates);
    let active_total = active.len();
    if active.len() > PRIME_ACTIVE_CAP {
        active.truncate(PRIME_ACTIVE_CAP);
    }
    proof {
        let d = dedup_by_ref(active_candidates@).map_values(|it: Item| active_item_of(it));
        assert(capped(dedup_by_ref(active_candidates@), PRIME_ACTIVE_CAP as int).map_values(
            |it: Item| active_item_of(it),
        ) =~= capped(d, PRIME_ACTIVE_CAP as int));
    }
    let inbox = inbox_of(inbox, PRIME_INBOX_CAP);
    let (total, committed, icebox, sync_pending) = counts;
    Prime {
        project,
        prefix,
        total,
        committed,
        icebox,
        sync_pending,
        queue,
        queue_total,
        next_eligible_total,
        active,
        active_total,
        inbox_untriaged,
        inbox,
        grooming_nudge,
    }
}

} // verus!
