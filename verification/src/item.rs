//! Item rules that hold before any row is written: title normalization for
//! duplicate capture, full-text query building, the `ready`-requires-acceptance
//! guard, deadline validation, ref minting, and the column plan of an update.

use vstd::prelude::*;
use crate::error::{invalid_with, HavenError};
use crate::json::Json;
use crate::artifact::NewArtifact;
use crate::model::{status_name, Artifact, ArtifactKind, ArtifactRole, Item, NodeType, OwnerKind, Status, SyncState, WaitState};
use crate::text::{
    chars_of, debug_quoted, debug_quoted_spec, is_whitespace, is_whitespace_spec, push_char,
    push_i64, push_str, string_from_chars, string_from_range, to_lowercase, to_lowercase_spec,
    int_decimal, string_of, all_digits, digits_value, nat_digits, push_u128,
};
use crate::time::{due_date_spec, epoch_millis, parse_due_date};
use crate::words::{end_pred, join, push_joined, tokenize, tokens, trim_end_by, trim_end_len, Sep};

verus! {

// ---- title normalization and full-text queries ------------------------------

/// `--if-absent` title normalization: whitespace runs collapsed to one space,
/// trailing sentence punctuation then trailing whitespace stripped, case folded.
pub open spec fn normalize_title_spec(s: Seq<char>) -> Seq<char> {
    to_lowercase_spec(
        trim_end_by(trim_end_by(join(tokens(s, Sep::Whitespace), seq![' ']), end_pred(true)), end_pred(false)),
    )
}

/// Title normalization for `--if-absent` dedupe: collapse whitespace, strip
/// trailing punctuation, case-fold. An empty result means "never matches".
pub fn normalize_title(s: &str) -> (r: String)
    ensures
        r@ == normalize_title_spec(s@),
{
    let v = chars_of(s);
    let words = tokenize(&v, Sep::Whitespace);
    let mut joined = String::new();
    push_joined(&mut joined, &words, " ");
    proof {
        reveal_strlit(" ");
        assert(" "@ =~= seq![' ']);
    }
    let jv = chars_of(joined.as_str());
    let n1 = trim_end_len(&jv, true);
    let cut = string_from_range(&jv, 0, n1);
    let cv = chars_of(cut.as_str());
    let n2 = trim_end_len(&cv, false);
    let trimmed = string_from_range(&cv, 0, n2);
    proof {
        assert(jv@.take(n1 as int) =~= jv@.subrange(0, n1 as int));
        assert(cv@.take(n2 as int) =~= cv@.subrange(0, n2 as int));
    }
    to_lowercase(trimmed.as_str())
}

/// Each token in double quotes.
pub open spec fn quoted(ws: Seq<Seq<char>>) -> Seq<Seq<char>> {
    ws.map_values(|t: Seq<char>| seq!['"'] + t + seq!['"'])
}

/// The FTS5 title query for `title`: its alphanumeric tokens, each quoted,
/// OR-joined and scoped to the title column; `None` without a token.
pub open spec fn fts_title_query_spec(title: Seq<char>) -> Option<Seq<char>> {
    let ts = tokens(title, Sep::NonAlphanumeric);
    if ts.len() == 0 {
        None
    } else {
        Some("title : ("@ + join(quoted(ts), " OR "@) + ")"@)
    }
}

/// The FTS5 query for a raw user search: its alphanumeric tokens, each quoted,
/// joined by spaces (implicit AND); `None` without a token.
pub open spec fn fts_user_query_spec(query: Seq<char>) -> Option<Seq<char>> {
    let ts = tokens(query, Sep::NonAlphanumeric);
    if ts.len() == 0 {
        None
    } else {
        Some(join(quoted(ts), " "@))
    }
}

/// The alphanumeric tokens of `s`, each wrapped in double quotes.
fn quoted_tokens(s: &str) -> (r: Vec<Vec<char>>)
    ensures
        r@.map_values(|w: Vec<char>| w@) == quoted(tokens(s@, Sep::NonAlphanumeric)),
{
    let v = chars_of(s);
    let ts = tokenize(&v, Sep::NonAlphanumeric);
    let ghost tv = ts@.map_values(|w: Vec<char>| w@);
    let mut out: Vec<Vec<char>> = Vec::new();
    let mut i: usize = 0;
    while i < ts.len()
        invariant
            i <= ts.len(),
            tv == ts@.map_values(|w: Vec<char>| w@),
            out@.map_values(|w: Vec<char>| w@) == quoted(tv.take(i as int)),
        decreases ts.len() - i,
    {
        let t = &ts[i];
        let mut q: Vec<char> = Vec::new();
        q.push('"');
        let mut j: usize = 0;
        while j < t.len()
            invariant
                j <= t.len(),
                q@ == seq!['"'] + t@.take(j as int),
            decreases t.len() - j,
        {
            q.push(t[j]);
            assert(t@.take(j + 1) =~= t@.take(j as int).push(t@[j as int]));
            assert(q@ =~= seq!['"'] + t@.take(j + 1));
            j = j + 1;
        }
        q.push('"');
        proof {
            assert(t@.take(t.len() as int) =~= t@);
            assert(q@ =~= seq!['"'] + tv[i as int] + seq!['"']);
        }
        let ghost before = out@;
        out.push(q);
        proof {
            assert(tv.take(i + 1) =~= tv.take(i as int).push(tv[i as int]));
            assert(out@.map_values(|w: Vec<char>| w@) =~= before.map_values(|w: Vec<char>| w@).push(
                seq!['"'] + tv[i as int] + seq!['"'],
            ));
            assert(quoted(tv.take(i + 1)) =~= quoted(tv.take(i as int)).push(
                seq!['"'] + tv[i as int] + seq!['"'],
            ));
        }
        i = i + 1;
    }
    assert(tv.take(ts.len() as int) =~= tv);
    out
}

/// Build an FTS5 MATCH query over a title's words, scoped to the title column.
/// Tokens are alphanumeric and double-quoted, which neutralizes FTS5 syntax
/// (`"`, `-`, parentheses) and bareword operators (AND/OR/NOT/NEAR). `None` when
/// the title has no alphanumeric token.
pub fn fts_title_query(title: &str) -> (r: Option<String>)
    ensures
        match r {
            Some(q) => fts_title_query_spec(title@) == Some(q@),
            None => fts_title_query_spec(title@) is None,
        },
{
    let qs = quoted_tokens(title);
    if qs.len() == 0 {
        return None;
    }
    let mut out = string_of("title : (");
    push_joined(&mut out, &qs, " OR ");
    push_str(&mut out, ")");
    Some(out)
}

/// Build an FTS5 MATCH query from a raw user search string: like
/// [`fts_title_query`] it quotes each alphanumeric token, but it searches every
/// indexed column and joins the tokens with spaces, so each must appear. `None`
/// when there is no alphanumeric token.
pub fn fts_user_query(query: &str) -> (r: Option<String>)
    ensures
        match r {
            Some(q) => fts_user_query_spec(query@) == Some(q@),
            None => fts_user_query_spec(query@) is None,
        },
{
    let qs = quoted_tokens(query);
    if qs.len() == 0 {
        return None;
    }
    let mut out = String::new();
    push_joined(&mut out, &qs, " ");
    Some(out)
}

// ---- acceptance and deadlines -----------------------------------------------

/// Every character of `s` is whitespace: `s.trim()` is empty.
pub open spec fn blank(s: Seq<char>) -> bool {
    forall|i: int| 0 <= i < s.len() ==> is_whitespace_spec(#[trigger] s[i])
}

/// An acceptance statement that is absent or only whitespace.
pub open spec fn acceptance_blank_spec(done: Option<Seq<char>>) -> bool {
    match done {
        None => true,
        Some(s) => blank(s),
    }
}

/// Whether every character of `s` is whitespace (so `s.trim()` is empty).
pub fn all_whitespace(s: &str) -> (r: bool)
    ensures
        r == blank(s@),
{
    let v = chars_of(s);
    let mut i: usize = 0;
    while i < v.len()
        invariant
            i <= v.len(),
            v@ == s@,
            forall|j: int| 0 <= j < i ==> is_whitespace_spec(#[trigger] s@[j]),
        decreases v.len() - i,
    {
        if !is_whitespace(v[i]) {
            assert(!is_whitespace_spec(s@[i as int]));
            return false;
        }
        i = i + 1;
    }
    true
}

/// True when an acceptance statement is absent or only whitespace: the
/// `ready`-requires-`done_looks_like` guard treats both as "no acceptance".
pub fn acceptance_blank(done: Option<&str>) -> (r: bool)
    ensures
        r == acceptance_blank_spec(opt_view(done)),
{
    match done {
        None => {
            assert(opt_view(done) is None);
            true
        },
        Some(s) => {
            let b = all_whitespace(s);
            assert(opt_view(done) == Some(s@));
            b
        },
    }
}

/// The characters of an optional string.
pub open spec fn opt_view(o: Option<&str>) -> Option<Seq<char>> {
    match o {
        Some(s) => Some(s@),
        None => None,
    }
}

/// The refusal of a malformed deadline.
pub open spec fn due_at_msg(value: Seq<char>) -> Seq<char> {
    "invalid due_at "@ + debug_quoted_spec(value) + " — expected a calendar date YYYY-MM-DD"@
}

/// The boundary gate for `due_at`: accept only a well-formed `YYYY-MM-DD` naming
/// a real calendar day, else `Invalid`.
pub fn validate_due_at(value: &str) -> (r: Result<(), HavenError>)
    ensures
        r is Ok <==> due_date_spec(value@) is Some,
        r matches Err(e) ==> invalid_with(e, due_at_msg(value@)),
{
    if parse_due_date(value).is_some() {
        Ok(())
    } else {
        let mut msg = string_of("invalid due_at ");
        let q = debug_quoted(value);
        push_str(&mut msg, q.as_str());
        push_str(&mut msg, " — expected a calendar date YYYY-MM-DD");
        Err(HavenError::Invalid(msg))
    }
}

// ---- includes ---------------------------------------------------------------

/// What to hydrate on `item get`.
#[derive(Debug, Clone, Copy, PartialEq, Eq, Structural)]
pub enum Include {
    Edges,
    Artifacts,
    Lineage,
}

/// The refusal of an unknown include, naming the legal set.
pub open spec fn include_msg(s: Seq<char>) -> Seq<char> {
    "unknown include "@ + debug_quoted_spec(s) + " — valid: edges, artifacts, lineage"@
}

impl Include {
    /// Parse `edges`, `artifacts` or `lineage`.
    pub fn parse(s: &str) -> (r: Result<Include, HavenError>)
        ensures
            r is Ok <==> (s@ == "edges"@ || s@ == "artifacts"@ || s@ == "lineage"@),
            r matches Ok(i) ==> (i == Include::Edges <==> s@ == "edges"@) && (i
                == Include::Artifacts <==> s@ == "artifacts"@) && (i == Include::Lineage <==> s@
                == "lineage"@),
            r matches Err(e) ==> invalid_with(e, include_msg(s@)),
    {
        proof {
            reveal_strlit("edges");
            reveal_strlit("artifacts");
            reveal_strlit("lineage");
            assert("edges"@.len() == 5 && "artifacts"@.len() == 9 && "lineage"@.len() == 7);
        }
        if crate::text::str_eq(s, "edges") {
            Ok(Include::Edges)
        } else if crate::text::str_eq(s, "artifacts") {
            Ok(Include::Artifacts)
        } else if crate::text::str_eq(s, "lineage") {
            Ok(Include::Lineage)
        } else {
            let mut msg = string_of("unknown include ");
            let q = debug_quoted(s);
            push_str(&mut msg, q.as_str());
            push_str(&mut msg, " — valid: edges, artifacts, lineage");
            Err(HavenError::Invalid(msg))
        }
    }
}

} // verus!

verus! {

/// The ref minted from a project's prefix and counter: `PREFIX-N`.
pub open spec fn ref_spec(prefix: Seq<char>, counter: int) -> Seq<char> {
    prefix + seq!['-'] + int_decimal(counter)
}

/// Mint the ref `PREFIX-N`.
pub fn format_ref(prefix: &str, counter: i64) -> (r: String)
    ensures
        r@ == ref_spec(prefix@, counter as int),
{
    let mut r = string_of(prefix);
    push_char(&mut r, '-');
    push_i64(&mut r, counter);
    r
}

/// What `str::parse::<i64>` accepts of a string without a `-`: an optional `+`
/// and one or more digits whose value fits in an `i64`.
pub open spec fn unsigned_i64_spec(s: Seq<char>) -> Option<int> {
    let digits = if s.len() > 0 && s[0] == '+' {
        s.drop_first()
    } else {
        s
    };
    if digits.len() > 0 && all_digits(digits) && digits_value(digits) <= i64::MAX {
        Some(digits_value(digits))
    } else {
        None
    }
}

/// Whether `s` holds no `-` at or after position `k`.
pub open spec fn no_dash_from(s: Seq<char>, k: int) -> bool {
    forall|j: int| k <= j < s.len() ==> s[j] != '-'
}

/// A ref split at its last `-` into `(prefix, counter)`: the prefix must be
/// non-empty and the rest a non-negative `i64`.
pub open spec fn parse_ref_spec(s: Seq<char>) -> Option<(Seq<char>, int)> {
    if exists|k: int| 0 <= k < s.len() && s[k] == '-' && no_dash_from(s, k + 1) {
        let k = choose|k: int| 0 <= k < s.len() && s[k] == '-' && no_dash_from(s, k + 1);
        if k > 0 && unsigned_i64_spec(s.subrange(k + 1, s.len() as int)) is Some {
            Some((s.subrange(0, k), unsigned_i64_spec(s.subrange(k + 1, s.len() as int)).unwrap()))
        } else {
            None
        }
    } else {
        None
    }
}

proof fn lemma_digits_value_prefix(s: Seq<char>, j: int)
    requires
        all_digits(s),
        0 <= j <= s.len(),
    ensures
        0 <= digits_value(s.take(j)) <= digits_value(s),
    decreases s.len(),
{
    if s.len() > 0 {
        let p = s.drop_last();
        assert(all_digits(p));
        if j == s.len() {
            assert(s.take(j) =~= s);
            lemma_digits_value_prefix(p, 0);
        } else {
            lemma_digits_value_prefix(p, j);
            assert(p.take(j) =~= s.take(j));
        }
        lemma_digits_value_prefix(p, p.len() as int);
        assert(p.take(p.len() as int) =~= p);
        assert(crate::text::is_ascii_digit_spec(s[s.len() - 1]));
    } else {
        assert(s.take(j) =~= s);
    }
}

/// `v[lo..hi]` read as an `i64` the way `str::parse` reads a string that holds
/// no `-`: an optional `+`, then at least one digit, the value in range.
fn parse_unsigned_i64(v: &Vec<char>, lo: usize, hi: usize) -> (r: Option<i64>)
    requires
        lo <= hi <= v.len(),
    ensures
        match r {
            Some(n) => unsigned_i64_spec(v@.subrange(lo as int, hi as int)) == Some(n as int),
            None => unsigned_i64_spec(v@.subrange(lo as int, hi as int)) is None,
        },
{
    let ghost s = v@.subrange(lo as int, hi as int);
    let start = if lo < hi && v[lo] == '+' {
        lo + 1
    } else {
        lo
    };
    let ghost digits = v@.subrange(start as int, hi as int);
    assert(digits =~= (if s.len() > 0 && s[0] == '+' {
        s.drop_first()
    } else {
        s
    }));
    if start == hi {
        return None;
    }
    let mut acc: i64 = 0;
    let mut i = start;
    while i < hi
        invariant
            lo <= start <= i <= hi <= v.len(),
            s == v@.subrange(lo as int, hi as int),
            digits == v@.subrange(start as int, hi as int),
            digits == (if s.len() > 0 && s[0] == '+' {
                s.drop_first()
            } else {
                s
            }),
            digits.len() > 0,
            all_digits(digits.take(i - start)),
            0 <= acc,
            acc as int == digits_value(digits.take(i - start)),
        decreases hi - i,
    {
        let c = v[i];
        assert(digits.take(i - start + 1).drop_last() =~= digits.take(i - start));
        if !('0' <= c && c <= '9') {
            assert(digits[i - start] == c);
            return None;
        }
        let d = (c as u32 - 48) as i64;
        assert(digits_value(digits.take(i - start + 1)) == acc * 10 + d);
        if acc > (i64::MAX - d) / 10 {
            proof {
                assert(all_digits(digits.take(i - start + 1)));
                if all_digits(digits) {
                    lemma_digits_value_prefix(digits, i - start + 1);
                    assert(digits.take(i - start + 1) =~= digits.take(i - start + 1));
                }
            }
            return None;
        }
        assert(acc * 10 + d <= i64::MAX) by (nonlinear_arith)
            requires
                0 <= acc <= (i64::MAX - d) / 10,
                0 <= d <= 9,
        ;
        acc = acc * 10 + d;
        i = i + 1;
    }
    assert(digits.take(hi - start) =~= digits);
    Some(acc)
}

/// The position of the last `-` in `v`, if any.
fn last_dash(v: &Vec<char>) -> (r: Option<usize>)
    ensures
        match r {
            Some(k) => k < v.len() && v@[k as int] == '-' && no_dash_from(v@, k + 1),
            None => no_dash_from(v@, 0),
        },
{
    let mut i = v.len();
    while i > 0
        invariant
            i <= v.len(),
            no_dash_from(v@, i as int),
        decreases i,
    {
        if v[i - 1] == '-' {
            return Some(i - 1);
        }
        i = i - 1;
    }
    None
}

/// Split a ref like `HV-42` into `(prefix, counter)`; `None` when it lacks the
/// `PREFIX-<digits>` shape (a public id, or junk).
pub fn parse_ref(reference: &str) -> (r: Option<(String, i64)>)
    ensures
        match r {
            Some((p, n)) => parse_ref_spec(reference@) == Some((p@, n as int)),
            None => parse_ref_spec(reference@) is None,
        },
{
    let v = chars_of(reference);
    let k = match last_dash(&v) {
        Some(k) => k,
        None => return None,
    };
    proof {
        let kk = choose|kk: int| 0 <= kk < v@.len() && v@[kk] == '-' && no_dash_from(v@, kk + 1);
        if kk < k {
            assert(v@[k as int] == '-');
        }
        if kk > k {
            assert(v@[kk] == '-');
        }
        assert(kk == k);
    }
    if k == 0 {
        return None;
    }
    match parse_unsigned_i64(&v, k + 1, v.len()) {
        Some(n) => Some((string_from_range(&v, 0, k), n)),
        None => None,
    }
}

} // verus!

verus! {

// ---- creation ---------------------------------------------------------------

/// Parameters for `item add`. Everything beyond `title` is optional: the default
/// is a bare, floating, uncommitted `discovery` task.
#[derive(Debug, Default)]
pub struct NewItem {
    pub title: String,
    pub node_type: Option<NodeType>,
    pub body: Option<String>,
    pub done_looks_like: Option<String>,
    pub why: Option<String>,
    /// Optional deadline `YYYY-MM-DD`, validated before any write.
    pub due_at: Option<String>,
    pub status: Option<Status>,
    pub priority: Option<i64>,
    pub commit: bool,
    pub assign: Option<OwnerKind>,
    pub parent: Option<String>,
    pub depends_on: Option<String>,
    pub group: Option<String>,
    pub metadata: Option<Json>,
}

/// The characters of an optional owned string.
pub open spec fn opt_string_view(o: Option<String>) -> Option<Seq<char>> {
    match o {
        Some(s) => Some(s@),
        None => None,
    }
}

/// The refusal of an empty title.
pub open spec fn empty_title_msg() -> Seq<char> {
    "item title must not be empty"@
}

/// The refusal of an item born `ready` without acceptance.
pub open spec fn born_ready_msg() -> Seq<char> {
    "cannot create an item as ready without acceptance — set done_looks_like first"@
}

/// Refuse a new item before any write: a blank title, a `ready` status without
/// acceptance, or a malformed deadline, checked in that order.
pub fn check_new_item(new: &NewItem) -> (r: Result<(), HavenError>)
    ensures
        match r {
            Ok(()) => !blank(new.title@) && !(new.status == Some(Status::Ready)
                && acceptance_blank_spec(opt_string_view(new.done_looks_like))) && (
            new.due_at matches Some(d) ==> due_date_spec(d@) is Some),
            Err(e) => if blank(new.title@) {
                invalid_with(e, empty_title_msg())
            } else if new.status == Some(Status::Ready) && acceptance_blank_spec(
                opt_string_view(new.done_looks_like),
            ) {
                invalid_with(e, born_ready_msg())
            } else {
                new.due_at matches Some(d) && due_date_spec(d@) is None && invalid_with(
                    e,
                    due_at_msg(d@),
                )
            },
        },
{
    if all_whitespace(new.title.as_str()) {
        return Err(HavenError::Invalid(string_of("item title must not be empty")));
    }
    let ready = match new.status {
        Some(Status::Ready) => true,
        _ => false,
    };
    if ready {
        let done = match &new.done_looks_like {
            Some(d) => Some(d.as_str()),
            None => None,
        };
        assert(opt_view(done) == opt_string_view(new.done_looks_like));
        if acceptance_blank(done) {
            return Err(
                HavenError::Invalid(
                    string_of(
                        "cannot create an item as ready without acceptance — set done_looks_like first",
                    ),
                ),
            );
        }
    }
    match &new.due_at {
        Some(d) => validate_due_at(d.as_str()),
        None => Ok(()),
    }
}

/// The node type and status a new item is created with: `task` and
/// `discovery` unless given.
pub fn item_defaults(new: &NewItem) -> (r: (NodeType, Status))
    ensures
        r.0 == (match new.node_type {
            Some(t) => t,
            None => NodeType::Task,
        }),
        r.1 == (match new.status {
            Some(s) => s,
            None => Status::Discovery,
        }),
{
    let t = match new.node_type {
        Some(t) => t,
        None => NodeType::Task,
    };
    let s = match new.status {
        Some(s) => s,
        None => Status::Discovery,
    };
    (t, s)
}

// ---- updates ----------------------------------------------------------------

/// How to change a node's `wait_state`: set it, or clear it.
#[derive(Debug, Clone, Copy, PartialEq, Eq, Structural)]
pub enum WaitUpdate {
    Assign(WaitState),
    Clear,
}

/// How to change a node's `due_at`: set it to a date, or clear it.
#[derive(Debug, Clone)]
pub enum DueUpdate {
    Assign(String),
    Clear,
}

/// Mutable fields for `item update`; `None` leaves a field unchanged.
#[derive(Debug, Default, Clone)]
pub struct ItemUpdate {
    pub title: Option<String>,
    pub body: Option<String>,
    pub done_looks_like: Option<String>,
    pub why: Option<String>,
    pub status: Option<Status>,
    pub priority: Option<i64>,
    pub node_type: Option<NodeType>,
    pub wait: Option<WaitUpdate>,
    pub due: Option<DueUpdate>,
}

/// One column assignment of an update, in the order the update applies them.
#[derive(Debug)]
pub enum ColumnSet {
    Title(String),
    Body(String),
    DoneLooksLike(String),
    Why(String),
    Status(Status),
    Priority(i64),
    NodeType(NodeType),
    WaitState(WaitState),
    WaitCleared,
    DueAt(String),
    DueCleared,
}

/// The text-column assignments of an update: title, body, done_looks_like, why.
pub open spec fn text_sets(u: ItemUpdate) -> Seq<ColumnSet> {
    (match u.title {
        Some(t) => seq![ColumnSet::Title(t)],
        None => seq![],
    }) + (match u.body {
        Some(b) => seq![ColumnSet::Body(b)],
        None => seq![],
    }) + (match u.done_looks_like {
        Some(d) => seq![ColumnSet::DoneLooksLike(d)],
        None => seq![],
    }) + (match u.why {
        Some(w) => seq![ColumnSet::Why(w)],
        None => seq![],
    })
}

/// The state-column assignments of an update: status, priority, type,
/// wait_state, due_at.
pub open spec fn state_sets(u: ItemUpdate) -> Seq<ColumnSet> {
    (match u.status {
        Some(s) => seq![ColumnSet::Status(s)],
        None => seq![],
    }) + (match u.priority {
        Some(p) => seq![ColumnSet::Priority(p)],
        None => seq![],
    }) + (match u.node_type {
        Some(t) => seq![ColumnSet::NodeType(t)],
        None => seq![],
    }) + (match u.wait {
        Some(WaitUpdate::Assign(w)) => seq![ColumnSet::WaitState(w)],
        Some(WaitUpdate::Clear) => seq![ColumnSet::WaitCleared],
        None => seq![],
    }) + (match u.due {
        Some(DueUpdate::Assign(d)) => seq![ColumnSet::DueAt(d)],
        Some(DueUpdate::Clear) => seq![ColumnSet::DueCleared],
        None => seq![],
    })
}

/// The assignments an update makes, in column order: title, body,
/// done_looks_like, why, status, priority, type, wait_state, due_at.
pub open spec fn update_sets(u: ItemUpdate) -> Seq<ColumnSet> {
    text_sets(u) + state_sets(u)
}

/// Whether an update would leave an item `ready` without acceptance: it moves
/// the item to `ready`, or clears the acceptance of a `ready` item, and the
/// acceptance in effect afterwards is blank.
pub open spec fn update_breaks_ready(u: ItemUpdate, current_status: Status, current_done: Option<
    Seq<char>,
>) -> bool {
    let setting_ready = u.status == Some(Status::Ready);
    let clearing_done = u.done_looks_like matches Some(d) && blank(d@);
    let effective_done = match u.done_looks_like {
        Some(d) => Some(d@),
        None => current_done,
    };
    (setting_ready || clearing_done) && (setting_ready || current_status == Status::Ready)
        && acceptance_blank_spec(effective_done)
}

/// The deadline an update sets, when it is malformed.
pub open spec fn bad_due(u: ItemUpdate) -> Option<Seq<char>> {
    match u.due {
        Some(DueUpdate::Assign(d)) => if due_date_spec(d@) is None {
            Some(d@)
        } else {
            None
        },
        _ => None,
    }
}

/// The refusal of an update that would leave `selector` ready without acceptance.
pub open spec fn ready_msg(selector: Seq<char>) -> Seq<char> {
    "cannot mark "@ + selector
        + " ready without acceptance — set done_looks_like (what success looks like) first"@
}

/// The refusal of an update that changes nothing.
pub open spec fn no_fields_msg() -> Seq<char> {
    "update: no fields to change"@
}

/// Plan an update of item `selector` whose current status and acceptance are
/// given: refuse one that would leave it `ready` without acceptance, one with a
/// malformed deadline, and one that changes nothing (in that order); otherwise
/// return its column assignments in order, which [`apply_update`] applies to
/// the row together with the revision bump, the update time and the local mark.
pub fn plan_update(
    selector: &str,
    upd: ItemUpdate,
    current_status: Status,
    current_done: Option<&str>,
) -> (r: Result<Vec<ColumnSet>, HavenError>)
    ensures
        match r {
            Ok(sets) => !update_breaks_ready(upd, current_status, opt_view(current_done))
                && bad_due(upd) is None
                && sets@ == update_sets(upd) && sets.len() > 0,
            Err(e) => if update_breaks_ready(upd, current_status, opt_view(current_done)) {
                invalid_with(e, ready_msg(selector@))
            } else if bad_due(upd) is Some {
                invalid_with(e, due_at_msg(bad_due(upd).unwrap()))
            } else {
                update_sets(upd).len() == 0 && invalid_with(e, no_fields_msg())
            },
        },
{
    match ready_guard(selector, &upd, current_status, current_done) {
        Ok(()) => {},
        Err(e) => return Err(e),
    }
    match &upd.due {
        Some(DueUpdate::Assign(d)) => {
            match validate_due_at(d.as_str()) {
                Ok(()) => {},
                Err(e) => return Err(e),
            }
        },
        _ => {},
    }
    let ghost u = upd;
    let sets = update_columns(upd);
    if sets.len() == 0 {
        return Err(HavenError::Invalid(string_of("update: no fields to change")));
    }
    Ok(sets)
}

/// The `ready`-requires-acceptance guard of an update.
fn ready_guard(selector: &str, upd: &ItemUpdate, current_status: Status, current_done: Option<&str>) -> (r: Result<(), HavenError>)
    ensures
        r is Err <==> update_breaks_ready(*upd, current_status, opt_view(current_done)),
        r matches Err(e) ==> invalid_with(e, ready_msg(selector@)),
{
    let setting_ready = match upd.status {
        Some(Status::Ready) => true,
        _ => false,
    };
    let clearing_done = match &upd.done_looks_like {
        Some(d) => all_whitespace(d.as_str()),
        None => false,
    };
    if setting_ready || clearing_done {
        let effective_done = match &upd.done_looks_like {
            Some(d) => Some(d.as_str()),
            None => current_done,
        };
        assert(opt_view(effective_done) == match upd.done_looks_like {
            Some(d) => Some(d@),
            None => opt_view(current_done),
        });
        let effective_ready = setting_ready || match current_status {
            Status::Ready => true,
            _ => false,
        };
        if effective_ready && acceptance_blank(effective_done) {
            let mut msg = string_of("cannot mark ");
            push_str(&mut msg, selector);
            push_str(
                &mut msg,
                " ready without acceptance — set done_looks_like (what success looks like) first",
            );
            return Err(HavenError::Invalid(msg));
        }
    }
    Ok(())
}

/// The column assignments of an update, in order.
fn update_columns(upd: ItemUpdate) -> (sets: Vec<ColumnSet>)
    ensures
        sets@ == update_sets(upd),
{
    let ghost u = upd;
    let ItemUpdate { title, body, done_looks_like, why, status, priority, node_type, wait, due } =
        upd;
    let mut sets = text_columns(title, body, done_looks_like, why);
    assert(sets@ == text_sets(u));
    let mut rest = state_columns(status, priority, node_type, wait, due);
    assert(rest@ == state_sets(u));
    sets.append(&mut rest);
    sets
}

fn text_columns(
    title: Option<String>,
    body: Option<String>,
    done_looks_like: Option<String>,
    why: Option<String>,
) -> (sets: Vec<ColumnSet>)
    ensures
        sets@ == text_sets(
            ItemUpdate {
                title,
                body,
                done_looks_like,
                why,
                status: None,
                priority: None,
                node_type: None,
                wait: None,
                due: None,
            },
        ),
{
    let mut sets: Vec<ColumnSet> = Vec::new();
    if let Some(t) = title {
        sets.push(ColumnSet::Title(t));
    }
    if let Some(b) = body {
        sets.push(ColumnSet::Body(b));
    }
    if let Some(d) = done_looks_like {
        sets.push(ColumnSet::DoneLooksLike(d));
    }
    if let Some(w) = why {
        sets.push(ColumnSet::Why(w));
    }
    sets
}

fn state_columns(
    status: Option<Status>,
    priority: Option<i64>,
    node_type: Option<NodeType>,
    wait: Option<WaitUpdate>,
    due: Option<DueUpdate>,
) -> (sets: Vec<ColumnSet>)
    ensures
        sets@ == state_sets(
            ItemUpdate {
                title: None,
                body: None,
                done_looks_like: None,
                why: None,
                status,
                priority,
                node_type,
                wait,
                due,
            },
        ),
{
    let mut sets = scalar_columns(status, priority, node_type);
    let mut rest = wait_due_columns(wait, due);
    sets.append(&mut rest);
    sets
}

fn scalar_columns(status: Option<Status>, priority: Option<i64>, node_type: Option<NodeType>) -> (sets:
    Vec<ColumnSet>)
    ensures
        sets@ == (match status {
            Some(s) => seq![ColumnSet::Status(s)],
            None => seq![],
        }) + (match priority {
            Some(p) => seq![ColumnSet::Priority(p)],
            None => seq![],
        }) + (match node_type {
            Some(t) => seq![ColumnSet::NodeType(t)],
            None => seq![],
        }),
{
    let mut sets: Vec<ColumnSet> = Vec::new();
    if let Some(s) = status {
        sets.push(ColumnSet::Status(s));
    }
    if let Some(p) = priority {
        sets.push(ColumnSet::Priority(p));
    }
    if let Some(t) = node_type {
        sets.push(ColumnSet::NodeType(t));
    }
    sets
}

fn wait_due_columns(wait: Option<WaitUpdate>, due: Option<DueUpdate>) -> (sets: Vec<ColumnSet>)
    ensures
        sets@ == (match wait {
            Some(WaitUpdate::Assign(w)) => seq![ColumnSet::WaitState(w)],
            Some(WaitUpdate::Clear) => seq![ColumnSet::WaitCleared],
            None => seq![],
        }) + (match due {
            Some(DueUpdate::Assign(d)) => seq![ColumnSet::DueAt(d)],
            Some(DueUpdate::Clear) => seq![ColumnSet::DueCleared],
            None => seq![],
        }),
{
    let mut sets: Vec<ColumnSet> = Vec::new();
    match wait {
        Some(WaitUpdate::Assign(w)) => sets.push(ColumnSet::WaitState(w)),
        Some(WaitUpdate::Clear) => sets.push(ColumnSet::WaitCleared),
        None => {},
    }
    match due {
        Some(DueUpdate::Assign(d)) => sets.push(ColumnSet::DueAt(d)),
        Some(DueUpdate::Clear) => sets.push(ColumnSet::DueCleared),
        None => {},
    }
    sets
}

} // verus!

verus! {

// ---- applying an update -------------------------------------------------------

/// An item's row after one column assignment.
pub open spec fn apply_set(it: Item, c: ColumnSet) -> Item {
    match c {
        ColumnSet::Title(t) => Item { title: t, ..it },
        ColumnSet::Body(b) => Item { body: Some(b), ..it },
        ColumnSet::DoneLooksLike(d) => Item { done_looks_like: Some(d), ..it },
        ColumnSet::Why(w) => Item { why: Some(w), ..it },
        ColumnSet::Status(st) => Item { status: st, ..it },
        ColumnSet::Priority(p) => Item { priority: Some(p), ..it },
        ColumnSet::NodeType(t) => Item { node_type: t, ..it },
        ColumnSet::WaitState(w) => Item { wait_state: Some(w), ..it },
        ColumnSet::WaitCleared => Item { wait_state: None, ..it },
        ColumnSet::DueAt(d) => Item { due_at: Some(d), ..it },
        ColumnSet::DueCleared => Item { due_at: None, ..it },
    }
}

/// An item's row after the assignments `sets`, in order.
pub open spec fn apply_sets(it: Item, sets: Seq<ColumnSet>) -> Item
    decreases sets.len(),
{
    if sets.len() == 0 {
        it
    } else {
        apply_set(apply_sets(it, sets.drop_last()), sets.last())
    }
}

/// An item's row after an update of `sets` at `now`: the assignments, then the
/// bookkeeping every write makes (revision bumped, update time stamped, row
/// marked local for sync).
pub open spec fn updated_row(it: Item, sets: Seq<ColumnSet>, now: String) -> Item {
    let r = apply_sets(it, sets);
    Item { revision: (it.revision + 1) as i64, updated_at: now, sync_state: SyncState::Local, ..r }
}

/// The assignments never touch an item's identity, commitment, ownership or
/// creation.
proof fn lemma_apply_sets_keeps(it: Item, sets: Seq<ColumnSet>)
    ensures
        apply_sets(it, sets).id == it.id,
        apply_sets(it, sets).public_id == it.public_id,
        apply_sets(it, sets).reference == it.reference,
        apply_sets(it, sets).project == it.project,
        apply_sets(it, sets).committed == it.committed,
        apply_sets(it, sets).owner_kind == it.owner_kind,
        apply_sets(it, sets).assignee == it.assignee,
        apply_sets(it, sets).created_at == it.created_at,
        apply_sets(it, sets).revision == it.revision,
    decreases sets.len(),
{
    if sets.len() > 0 {
        lemma_apply_sets_keeps(it, sets.drop_last());
    }
}

/// Apply a planned update to an item's row at `now`: the assignments in
/// order, then the revision bumped by one, the update time set and the row
/// marked local; identity, commitment, ownership and creation are untouched.
pub fn apply_update(item: Item, sets: Vec<ColumnSet>, now: String) -> (r: Item)
    requires
        item.revision < i64::MAX,
    ensures
        r == updated_row(item, sets@, now),
        r.revision == item.revision + 1,
        r.sync_state == SyncState::Local,
        r.updated_at == now,
        r.id == item.id && r.public_id == item.public_id && r.reference == item.reference,
        r.project == item.project && r.created_at == item.created_at,
        r.committed == item.committed && r.owner_kind == item.owner_kind && r.assignee == item.assignee,
{
    proof {
        lemma_apply_sets_keeps(item, sets@);
    }
    let ghost orig = item;
    let ghost all = sets@;
    let mut it = item;
    let mut rest = sets;
    let n0: usize = rest.len();
    let mut k: usize = 0;
    while rest.len() > 0
        invariant
            k <= all.len(),
            all.len() == n0,
            rest@ == all.skip(k as int),
            it == apply_sets(orig, all.take(k as int)),
            it.revision == orig.revision,
        decreases rest.len(),
    {
        proof {
            assert(all.skip(k as int)[0] == all[k as int]);
            assert(all.skip(k as int).remove(0) =~= all.skip(k + 1));
            assert(all.take(k + 1).drop_last() =~= all.take(k as int));
            assert(all.take(k + 1).last() == all[k as int]);
        }
        let c = rest.remove(0);
        match c {
            ColumnSet::Title(t) => it.title = t,
            ColumnSet::Body(b) => it.body = Some(b),
            ColumnSet::DoneLooksLike(d) => it.done_looks_like = Some(d),
            ColumnSet::Why(w) => it.why = Some(w),
            ColumnSet::Status(st) => it.status = st,
            ColumnSet::Priority(p) => it.priority = Some(p),
            ColumnSet::NodeType(t) => it.node_type = t,
            ColumnSet::WaitState(w) => it.wait_state = Some(w),
            ColumnSet::WaitCleared => it.wait_state = None,
            ColumnSet::DueAt(d) => it.due_at = Some(d),
            ColumnSet::DueCleared => it.due_at = None,
        }
        k = k + 1;
    }
    proof {
        assert(all.take(k as int) =~= all);
    }
    it.revision = it.revision + 1;
    it.updated_at = now;
    it.sync_state = SyncState::Local;
    it
}

// ---- handoff, completion, anchors, ranking -----------------------------------

/// What a handoff to `to` does besides recording the note: who is handing off
/// (`from` if given, else the current owner, else the other side), the status on
/// pickup (an explicit one wins; handing to a human parks the item `blocked`;
/// handing a `blocked` item to ai makes it `ready`; otherwise unchanged) and the
/// wait-state (an explicit one wins; `on_human` towards a human; cleared towards ai).
pub open spec fn handoff_spec(
    to: OwnerKind,
    from: Option<OwnerKind>,
    owner: Option<OwnerKind>,
    status: Status,
    want_status: Option<Status>,
    want_wait: Option<WaitState>,
) -> (OwnerKind, Option<Status>, WaitUpdate) {
    let f = match from {
        Some(f) => f,
        None => match owner {
            Some(o) => o,
            None => to.opposite_spec(),
        },
    };
    let s = match want_status {
        Some(s) => Some(s),
        None => match to {
            OwnerKind::Human => Some(Status::Blocked),
            OwnerKind::Ai => if status == Status::Blocked {
                Some(Status::Ready)
            } else {
                None
            },
        },
    };
    let w = match want_wait {
        Some(w) => WaitUpdate::Assign(w),
        None => match to {
            OwnerKind::Human => WaitUpdate::Assign(WaitState::OnHuman),
            OwnerKind::Ai => WaitUpdate::Clear,
        },
    };
    (f, s, w)
}

/// Optional inputs of a handoff beyond the target owner; `None` fields take
/// the defaults of [`handoff_spec`].
#[derive(Debug, Default)]
pub struct HandoffInput<'a> {
    /// Who is handing off.
    pub from: Option<OwnerKind>,
    /// The baton note, recorded as a `handoff` artifact.
    pub note: Option<&'a str>,
    /// Status on pickup.
    pub status: Option<Status>,
    /// Wait-state on pickup.
    pub wait: Option<WaitState>,
    /// Actor handle recorded as the new assignee and the note's author.
    pub actor: Option<&'a str>,
}

/// The result of a handoff: the updated item and the note artifact, when a
/// note was recorded.
#[derive(Debug)]
pub struct HandoffResult {
    pub item: Item,
    pub artifact: Option<Artifact>,
}

/// The direction-aware defaults of a handoff to `to` of an item whose current
/// owner and status are given: `(from, status to set, wait-state change)`.
pub fn handoff_plan(to: OwnerKind, opts: &HandoffInput, owner: Option<OwnerKind>, status: Status) -> (r: (
    OwnerKind,
    Option<Status>,
    WaitUpdate,
))
    ensures
        r == handoff_spec(to, opts.from, owner, status, opts.status, opts.wait),
{
    let f = match opts.from {
        Some(f) => f,
        None => match owner {
            Some(o) => o,
            None => to.opposite(),
        },
    };
    let s = match opts.status {
        Some(s) => Some(s),
        None => match to {
            OwnerKind::Human => Some(Status::Blocked),
            OwnerKind::Ai => match status {
                Status::Blocked => Some(Status::Ready),
                _ => None,
            },
        },
    };
    let w = match opts.wait {
        Some(w) => WaitUpdate::Assign(w),
        None => match to {
            OwnerKind::Human => WaitUpdate::Assign(WaitState::OnHuman),
            OwnerKind::Ai => WaitUpdate::Clear,
        },
    };
    (f, s, w)
}

/// The file name of a handoff note written at `millis` since the epoch.
pub open spec fn handoff_note_name(millis: nat) -> Seq<char> {
    "handoff-"@ + nat_digits(millis) + ".md"@
}

/// `a` asks for an inline artifact of `role` holding `content`, with only the
/// given name, owners and author set.
pub open spec fn inline_artifact(
    a: NewArtifact,
    role: ArtifactRole,
    content: Seq<char>,
    from: Option<OwnerKind>,
    to: Option<OwnerKind>,
    author: Option<Seq<char>>,
) -> bool {
    &&& a.role == role
    &&& a.kind == ArtifactKind::File
    &&& a.content matches Some(c) && c@ == content
    &&& a.from_owner == from
    &&& a.to_owner == to
    &&& opt_string_view(a.created_by) == author
    &&& a.file is None
    &&& a.uri is None
    &&& a.title is None
    &&& a.excerpt is None
    &&& a.metadata is None
    &&& !a.replace
}

/// The artifact a handoff records for its note: a `handoff` file carrying the
/// note, both owners and the actor, named `handoff-<epoch millis>.md` from the
/// system clock so successive handoffs do not overwrite each other. No note,
/// no artifact.
pub fn handoff_note(to: OwnerKind, from: OwnerKind, opts: &HandoffInput) -> (r: Option<NewArtifact>)
    ensures
        match opts.note {
            None => r is None,
            Some(note) => r matches Some(a) && inline_artifact(
                a,
                ArtifactRole::Handoff,
                note@,
                Some(from),
                Some(to),
                opt_view(opts.actor),
            ) && (exists|m: nat| a.name matches Some(n) && n@ == #[trigger] handoff_note_name(m)),
        },
{
    match opts.note {
        None => None,
        Some(note) => {
            let millis = epoch_millis();
            let mut name = string_of("handoff-");
            push_u128(&mut name, millis);
            push_str(&mut name, ".md");
            assert(name@ == handoff_note_name(millis as nat));
            let created_by = match opts.actor {
                Some(a) => Some(string_of(a)),
                None => None,
            };
            Some(
                NewArtifact {
                    role: ArtifactRole::Handoff,
                    kind: ArtifactKind::File,
                    file: None,
                    content: Some(string_of(note)),
                    name: Some(name),
                    uri: None,
                    title: None,
                    excerpt: None,
                    from_owner: Some(from),
                    to_owner: Some(to),
                    created_by,
                    metadata: None,
                    replace: false,
                },
            )
        },
    }
}

/// Optional inputs of completing an item.
#[derive(Debug, Default)]
pub struct CompleteInput<'a> {
    /// Proof the work is done, recorded as an artifact.
    pub evidence: Option<&'a str>,
    /// Role of the evidence artifact; `delivery` when not given.
    pub artifact_role: Option<ArtifactRole>,
    /// Creator handle recorded on the evidence artifact.
    pub by: Option<&'a str>,
}

/// The result of completing an item: the item (now `done`), the evidence
/// artifact, the items this completion unblocked, and advisory warnings.
#[derive(Debug)]
pub struct CompleteResult {
    pub item: Item,
    pub artifact: Option<Artifact>,
    pub unblocked: Vec<Item>,
    pub warnings: Vec<String>,
}

/// The artifact a completion records for its evidence: an inline file of the
/// given role (`delivery` by default) by the given author, under the role's
/// default name. No evidence, no artifact.
pub fn evidence_artifact(input: &CompleteInput) -> (r: Option<NewArtifact>)
    ensures
        match input.evidence {
            None => r is None,
            Some(ev) => r matches Some(a) && inline_artifact(
                a,
                match input.artifact_role {
                    Some(role) => role,
                    None => ArtifactRole::Delivery,
                },
                ev@,
                None,
                None,
                opt_view(input.by),
            ) && a.name is None,
        },
{
    match input.evidence {
        None => None,
        Some(ev) => {
            let role = match input.artifact_role {
                Some(role) => role,
                None => ArtifactRole::Delivery,
            };
            let created_by = match input.by {
                Some(b) => Some(string_of(b)),
                None => None,
            };
            Some(
                NewArtifact {
                    role,
                    kind: ArtifactKind::File,
                    file: None,
                    content: Some(string_of(ev)),
                    name: None,
                    uri: None,
                    title: None,
                    excerpt: None,
                    from_owner: None,
                    to_owner: None,
                    created_by,
                    metadata: None,
                    replace: false,
                },
            )
        },
    }
}

/// The refusal to complete a dead item.
pub open spec fn complete_dead_msg(status: Status) -> Seq<char> {
    "cannot complete a "@ + status_name(status) + " item; reopen it first"@
}

/// The advisory when an item is completed without acceptance.
pub open spec fn no_acceptance_warning() -> Seq<char> {
    "no acceptance was set (done_looks_like) — completing without a verifiable anchor"@
}

/// Decide whether an item with this status and acceptance may be completed:
/// a superseded or archived item is refused (reopen it first); otherwise the
/// advisory warnings, which hold one line when no acceptance was ever set.
pub fn completion_check(status: Status, done_looks_like: Option<&str>) -> (r: Result<Vec<String>, HavenError>)
    ensures
        match r {
            Ok(w) => !status.is_dead_spec() && (if done_looks_like is None {
                w.len() == 1 && w[0]@ == no_acceptance_warning()
            } else {
                w.len() == 0
            }),
            Err(e) => status.is_dead_spec() && invalid_with(e, complete_dead_msg(status)),
        },
{
    if status.is_dead() {
        let mut msg = string_of("cannot complete a ");
        push_str(&mut msg, status.as_str());
        push_str(&mut msg, " item; reopen it first");
        return Err(HavenError::Invalid(msg));
    }
    let mut warnings: Vec<String> = Vec::new();
    if done_looks_like.is_none() {
        warnings.push(
            string_of(
                "no acceptance was set (done_looks_like) — completing without a verifiable anchor",
            ),
        );
    }
    Ok(warnings)
}

/// The refusal to `op` an anchor that still carries artifacts.
pub open spec fn anchor_msg(op: Seq<char>) -> Seq<char> {
    "cannot "@ + op + " an artifact-bearing anchor; move or remove its artifacts first"@
}

/// Refuse to `op` (complete, archive) an anchor node that carries artifacts.
pub fn refuse_artifact_bearing_anchor(node_type: NodeType, artifact_count: i64, op: &str) -> (r:
    Result<(), HavenError>)
    ensures
        r is Err <==> (node_type == NodeType::Anchor && artifact_count > 0),
        r matches Err(e) ==> invalid_with(e, anchor_msg(op@)),
{
    match node_type {
        NodeType::Anchor => {
            if artifact_count > 0 {
                let mut msg = string_of("cannot ");
                push_str(&mut msg, op);
                push_str(&mut msg, " an artifact-bearing anchor; move or remove its artifacts first");
                return Err(HavenError::Invalid(msg));
            }
            Ok(())
        },
        _ => Ok(()),
    }
}

/// The refusal of a rank request without exactly one anchor.
pub open spec fn rank_one_msg() -> Seq<char> {
    "rank requires exactly one of --before/--after"@
}

/// Pick the rank target: exactly one of `before` / `after`, with whether the
/// item goes before it.
pub fn rank_target(before: Option<String>, after: Option<String>) -> (r: Result<(String, bool), HavenError>)
    ensures
        match r {
            Ok((t, is_before)) => (before matches Some(b) && after is None && t == b && is_before)
                || (after matches Some(a) && before is None && t == a && !is_before),
            Err(e) => !((before is Some) ^ (after is Some)) && invalid_with(e, rank_one_msg()),
        },
{
    match (before, after) {
        (Some(t), None) => Ok((t, true)),
        (None, Some(t)) => Ok((t, false)),
        _ => Err(HavenError::Invalid(string_of("rank requires exactly one of --before/--after"))),
    }
}

/// Refuse ranking an item relative to itself, or ranking an anchor (as the item
/// or as the target), checked in that order.
pub fn rank_refusal(node_id: i64, target_id: i64, node_type: NodeType, target_type: NodeType) -> (r:
    Result<(), HavenError>)
    ensures
        match r {
            Ok(()) => node_id != target_id && node_type != NodeType::Anchor && target_type
                != NodeType::Anchor,
            Err(e) => if node_id == target_id {
                invalid_with(e, "cannot rank an item relative to itself"@)
            } else {
                (node_type == NodeType::Anchor || target_type == NodeType::Anchor) && invalid_with(
                    e,
                    "anchor nodes cannot be ranked or used as rank targets"@,
                )
            },
        },
{
    if node_id == target_id {
        return Err(HavenError::Invalid(string_of("cannot rank an item relative to itself")));
    }
    let anchor = match node_type {
        NodeType::Anchor => true,
        _ => false,
    } || match target_type {
        NodeType::Anchor => true,
        _ => false,
    };
    if anchor {
        return Err(
            HavenError::Invalid(string_of("anchor nodes cannot be ranked or used as rank targets")),
        );
    }
    Ok(())
}

// ---- guarded add -------------------------------------------------------------

/// A live item whose title plausibly overlaps a just-created one (advisory).
#[derive(Debug, Clone, PartialEq, Eq)]
pub struct SimilarItem {
    pub reference: String,
    pub title: String,
}

/// The result of a guarded add: the item, whether it was an existing item
/// returned instead of a create, and any similar-title warnings.
#[derive(Debug)]
pub struct AddOutcome {
    pub item: Item,
    pub existing: bool,
    pub similar: Vec<SimilarItem>,
}

/// The normalized title a guarded add looks up before creating: only with
/// `if_absent`, and never an empty one (an empty normalization matches nothing).
pub fn dedupe_title(if_absent: bool, title: &str) -> (r: Option<String>)
    ensures
        match r {
            Some(n) => if_absent && normalize_title_spec(title@).len() > 0 && n@ == normalize_title_spec(
                title@,
            ),
            None => !if_absent || normalize_title_spec(title@).len() == 0,
        },
{
    if !if_absent {
        return None;
    }
    let norm = normalize_title(title);
    if chars_of(norm.as_str()).len() == 0 {
        None
    } else {
        Some(norm)
    }
}

} // verus!
