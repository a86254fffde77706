//! Snapshot retention: which snapshot names a rotation deletes.
//!
//! A snapshot is named by its UTC stamp `YYYYMMDDTHHMMSSZ`; lexical order of
//! stamps is chronological order, so "newest" means "greatest stamp". The policy
//! keeps the newest snapshot of each of the `keep_daily` most recent calendar days
//! and of each of the `keep_weekly` most recent ISO weeks. Quarantined names
//! (`-SUSPECT`) and names that are not stamps are never deleted.

use vstd::prelude::*;
use crate::text::{lemma_seq_lt_asym, lemma_seq_lt_total, lemma_seq_lt_trans, seq_lt, str_lt};
use crate::text::{all_digits, is_ascii_digit_spec, chars_of, digits_value, ends_with, ends_with_spec, parse_digits};
use crate::time::{
    civil_from_days, days_from_civil, iso_week, iso_week_spec, lemma_civil_round_trip,
    lemma_iso_week, valid_date,
};

verus! {

broadcast use vstd::seq_lib::group_to_multiset_ensures;

/// The quarantine suffix of a snapshot id.
pub open spec fn suspect_suffix() -> Seq<char> {
    seq!['-', 'S', 'U', 'S', 'P', 'E', 'C', 'T']
}

/// A quarantined snapshot id.
pub open spec fn is_suspect(s: Seq<char>) -> bool {
    ends_with_spec(s, suspect_suffix())
}

/// The date a snapshot stamp `YYYYMMDDTHHMMSSZ` names: sixteen characters, `T`
/// and `Z` in place, digits elsewhere, and a real calendar day.
pub open spec fn stamp_spec(s: Seq<char>) -> Option<(int, int, int)> {
    if s.len() == 16 && s[8] == 'T' && s[15] == 'Z' && all_digits(s.subrange(0, 8)) && all_digits(
        s.subrange(9, 15),
    ) && valid_date(
        digits_value(s.subrange(0, 4)),
        digits_value(s.subrange(4, 6)),
        digits_value(s.subrange(6, 8)),
    ) {
        Some(
            (
                digits_value(s.subrange(0, 4)),
                digits_value(s.subrange(4, 6)),
                digits_value(s.subrange(6, 8)),
            ),
        )
    } else {
        None
    }
}

/// The value of a stamp's fourteen digits: its position in time, so that a
/// greater key is a newer snapshot (the same order as the stamps' lexical order).
pub open spec fn stamp_key(s: Seq<char>) -> int {
    digits_value(s.subrange(0, 8)) * 1000000 + digits_value(s.subrange(9, 15))
}

/// The calendar day of a stamp as one number, `YYYYMMDD`.
pub open spec fn day_key(s: Seq<char>) -> int {
    digits_value(s.subrange(0, 8))
}

/// The ISO week `(week_year, week)` of a stamp as one number, `week_year * 100 + week`.
pub open spec fn week_key(s: Seq<char>) -> int {
    let (y, m, d) = stamp_spec(s).unwrap();
    let w = iso_week_spec(y, m, d);
    w.0 * 100 + w.1
}

/// A name that takes part in retention: a stamp that is not quarantined.
pub open spec fn in_rotation(s: Seq<char>) -> bool {
    !is_suspect(s) && stamp_spec(s) is Some
}

/// The day key (`by_day`) or the week key of a stamp: the bucket it is retained in.
pub open spec fn bucket_key(s: Seq<char>, by_day: bool) -> int {
    if by_day {
        day_key(s)
    } else {
        week_key(s)
    }
}

/// The distinct buckets of the snapshots among `names[..n]` newer than key `k`.
pub open spec fn newer_among(names: Seq<Seq<char>>, n: int, k: int, by_day: bool) -> Set<i64> {
    Set::new(
        |x: i64|
            exists|j: int|
                0 <= j < n && in_rotation(#[trigger] names[j]) && stamp_key(names[j]) > k
                    && bucket_key(names[j], by_day) == x as int,
    )
}

/// The distinct buckets (days, or ISO weeks) of the snapshots newer than key `k`.
pub open spec fn newer_buckets(names: Seq<Seq<char>>, k: int, by_day: bool) -> Set<i64> {
    newer_among(names, names.len() as int, k, by_day)
}

/// `s` is the newest snapshot of its bucket (day, or ISO week).
pub open spec fn newest_in_bucket(names: Seq<Seq<char>>, s: Seq<char>, by_day: bool) -> bool {
    forall|j: int|
        0 <= j < names.len() && in_rotation(#[trigger] names[j]) && bucket_key(names[j], by_day)
            == bucket_key(s, by_day) ==> stamp_key(names[j]) <= stamp_key(s)
}

/// `s` survives: it is the newest of one of the `keep_daily` most recent days, or
/// of one of the `keep_weekly` most recent ISO weeks.
pub open spec fn retained(names: Seq<Seq<char>>, s: Seq<char>, keep_daily: int, keep_weekly: int) -> bool {
    (newest_in_bucket(names, s, true) && newer_buckets(names, stamp_key(s), true).len()
        < keep_daily) || (newest_in_bucket(names, s, false) && newer_buckets(
        names,
        stamp_key(s),
        false,
    ).len() < keep_weekly)
}

/// `s` is deleted by a rotation over `names`.
pub open spec fn doomed(names: Seq<Seq<char>>, s: Seq<char>, keep_daily: int, keep_weekly: int) -> bool {
    in_rotation(s) && !retained(names, s, keep_daily, keep_weekly)
}

/// The characters of each name.
pub open spec fn names_of(dirs: Seq<String>) -> Seq<Seq<char>> {
    dirs.map_values(|s: String| s@)
}

/// The names a rotation over `names` deletes (listed in input order; the plan
/// returns them newest first).
pub open spec fn rotation_spec(names: Seq<Seq<char>>, keep_daily: int, keep_weekly: int) -> Seq<Seq<char>> {
    names.filter(|s: Seq<char>| doomed(names, s, keep_daily, keep_weekly))
}

/// Whether an id carries the quarantine suffix.
pub fn has_suspect_suffix(id: &str) -> (r: bool)
    ensures
        r == is_suspect(id@),
{
    proof {
        reveal_strlit("-SUSPECT");
    }
    assert("-SUSPECT"@ == suspect_suffix());
    ends_with(id, "-SUSPECT")
}

/// Parse a `YYYYMMDDTHHMMSSZ` snapshot name to `(year, month, day)`; `None`
/// unless it is well formed and names a real calendar day.
pub fn parse_stamp(name: &str) -> (r: Option<(i64, u32, u32)>)
    ensures
        match r {
            Some((y, m, d)) => stamp_spec(name@) == Some((y as int, m as int, d as int)),
            None => stamp_spec(name@) is None,
        },
{
    match stamp_parts(name) {
        Some((y, m, d, _, _)) => Some((y, m, d)),
        None => None,
    }
}

/// [`parse_stamp`] together with the stamp's key.
fn stamp_parts(name: &str) -> (r: Option<(i64, u32, u32, u64, u64)>)
    ensures
        match r {
            Some((y, m, d, k, dk)) => stamp_spec(name@) == Some((y as int, m as int, d as int))
                && 0 <= y <= 9999 && k as int == stamp_key(name@) && dk as int == day_key(name@)
                && dk < 100000000,
            None => stamp_spec(name@) is None,
        },
{
    let v = chars_of(name);
    if v.len() != 16 || v[8] != 'T' || v[15] != 'Z' {
        return None;
    }
    let ghost s = v@;
    let date = parse_digits(&v, 0, 8);
    let tod = parse_digits(&v, 9, 15);
    let (date, tod) = match (date, tod) {
        (Some(a), Some(b)) => (a, b),
        _ => return None,
    };
    proof {
        assert forall|i: int| 0 <= i < 4 implies is_ascii_digit_spec(
            #[trigger] s.subrange(0, 4)[i],
        ) by {
            assert(s.subrange(0, 4)[i] == s.subrange(0, 8)[i]);
        }
        assert forall|i: int| 0 <= i < 2 implies is_ascii_digit_spec(
            #[trigger] s.subrange(4, 6)[i],
        ) by {
            assert(s.subrange(4, 6)[i] == s.subrange(0, 8)[i + 4]);
        }
        assert forall|i: int| 0 <= i < 2 implies is_ascii_digit_spec(
            #[trigger] s.subrange(6, 8)[i],
        ) by {
            assert(s.subrange(6, 8)[i] == s.subrange(0, 8)[i + 6]);
        }
    }
    let y = parse_digits(&v, 0, 4).unwrap();
    let m = parse_digits(&v, 4, 6).unwrap();
    let d = parse_digits(&v, 6, 8).unwrap();
    proof {
        crate::text::lemma_digits_value_bound(s.subrange(0, 4));
        crate::text::lemma_digits_value_bound(s.subrange(4, 6));
        crate::text::lemma_digits_value_bound(s.subrange(6, 8));
        crate::text::lemma_digits_value_bound(s.subrange(0, 8));
        crate::text::lemma_digits_value_bound(s.subrange(9, 15));
        reveal_with_fuel(crate::text::pow10, 9);
    }
    let y = y as i64;
    let m = m as u32;
    let d = d as u32;
    if m < 1 || m > 12 || d < 1 || d > 31 {
        return None;
    }
    let (by, bm, bd) = civil_from_days(days_from_civil(y, m, d));
    if by != y || bm != m || bd != d {
        proof {
            if valid_date(y as int, m as int, d as int) {
                lemma_civil_round_trip(y as int, m as int, d as int);
            }
        }
        return None;
    }
    Some((y, m, d, date * 1000000 + tod, date))
}

/// Everything the policy reads of one name: its key, day and week, or `None`
/// when the name takes no part in retention.
fn rotation_info(name: &str) -> (r: Option<(u64, i64, i64)>)
    ensures
        r is Some <==> in_rotation(name@),
        r matches Some((k, dk, wk)) ==> k as int == stamp_key(name@) && dk as int == day_key(
            name@,
        ) && wk as int == week_key(name@),
{
    if has_suspect_suffix(name) {
        return None;
    }
    match stamp_parts(name) {
        Some((y, m, d, k, dk)) => {
            proof {
                lemma_iso_week(y as int, m as int, d as int);
            }
            let (wy, w) = iso_week(y, m, d);
            Some((k, dk as i64, wy * 100 + w as i64))
        },
        None => None,
    }
}

/// `x` records what the policy reads of `name`.
pub open spec fn info_of(x: Option<(u64, i64, i64)>, name: Seq<char>) -> bool {
    match x {
        Some((k, dk, wk)) => in_rotation(name) && k as int == stamp_key(name) && dk as int
            == day_key(name) && wk as int == week_key(name),
        None => !in_rotation(name),
    }
}

/// The selected bucket key of a recorded name.
fn bucket_of(x: (u64, i64, i64), by_day: bool) -> (b: i64)
    ensures
        b == (if by_day {
            x.1
        } else {
            x.2
        }),
{
    if by_day {
        x.1
    } else {
        x.2
    }
}

/// Whether no recorded name in bucket `b` is newer than key `k`.
fn newest_in(
    info: &Vec<Option<(u64, i64, i64)>>,
    Ghost(names): Ghost<Seq<Seq<char>>>,
    k: u64,
    b: i64,
    by_day: bool,
) -> (r: bool)
    requires
        info.len() == names.len(),
        forall|j: int| 0 <= j < info.len() ==> info_of(#[trigger] info@[j], names[j]),
    ensures
        r == (forall|j: int|
            0 <= j < names.len() && in_rotation(#[trigger] names[j]) && bucket_key(names[j], by_day)
                == b as int ==> stamp_key(names[j]) <= k),
{
    let mut j: usize = 0;
    while j < info.len()
        invariant
            j <= info.len(),
            info.len() == names.len(),
            forall|jj: int| 0 <= jj < info.len() ==> info_of(#[trigger] info@[jj], names[jj]),
            forall|jj: int|
                0 <= jj < j && in_rotation(#[trigger] names[jj]) && bucket_key(names[jj], by_day)
                    == b as int ==> stamp_key(names[jj]) <= k,
        decreases info.len() - j,
    {
        assert(info_of(info@[j as int], names[j as int]));
        match info[j] {
            Some(x) => {
                if bucket_of(x, by_day) == b && x.0 > k {
                    return false;
                }
            },
            None => {},
        }
        j = j + 1;
    }
    true
}

/// The number of distinct buckets among the recorded names newer than key `k`.
fn count_newer(
    info: &Vec<Option<(u64, i64, i64)>>,
    Ghost(names): Ghost<Seq<Seq<char>>>,
    k: u64,
    by_day: bool,
) -> (n: usize)
    requires
        info.len() == names.len(),
        forall|j: int| 0 <= j < info.len() ==> info_of(#[trigger] info@[j], names[j]),
    ensures
        n as int == newer_buckets(names, k as int, by_day).len(),
{
    let mut seen: Vec<i64> = Vec::new();
    let mut j: usize = 0;
    while j < info.len()
        invariant
            j <= info.len(),
            info.len() == names.len(),
            forall|jj: int| 0 <= jj < info.len() ==> info_of(#[trigger] info@[jj], names[jj]),
            seen@.no_duplicates(),
            seen@.to_set() == newer_among(names, j as int, k as int, by_day),
        decreases info.len() - j,
    {
        assert(info_of(info@[j as int], names[j as int]));
        proof {
            lemma_newer_step(names, j as int, k as int, by_day);
        }
        match info[j] {
            Some(x) => {
                let bk = bucket_of(x, by_day);
                if x.0 > k {
                    if !contains_i64(&seen, bk) {
                        proof {
                            seen@.lemma_push_to_set_commute(bk);
                        }
                        seen.push(bk);
                    } else {
                        assert(seen@.to_set().insert(bk) =~= seen@.to_set());
                    }
                }
            },
            None => {},
        }
        j = j + 1;
    }
    proof {
        seen@.unique_seq_to_set();
    }
    seen.len()
}

proof fn lemma_newer_step(names: Seq<Seq<char>>, j: int, k: int, by_day: bool)
    requires
        0 <= j < names.len(),
        in_rotation(names[j]) ==> i64::MIN <= bucket_key(names[j], by_day) <= i64::MAX,
    ensures
        newer_among(names, j + 1, k, by_day) == (if in_rotation(names[j]) && stamp_key(names[j])
            > k {
            newer_among(names, j, k, by_day).insert(bucket_key(names[j], by_day) as i64)
        } else {
            newer_among(names, j, k, by_day)
        }),
{
    if in_rotation(names[j]) && stamp_key(names[j]) > k {
        let bk = bucket_key(names[j], by_day) as i64;
        assert forall|x: i64| #[trigger]
            newer_among(names, j + 1, k, by_day).contains(x) == newer_among(
                names,
                j,
                k,
                by_day,
            ).insert(bk).contains(x) by {
            if x == bk {
                assert(newer_among(names, j + 1, k, by_day).contains(x));
            }
        }
        assert(newer_among(names, j + 1, k, by_day) =~= newer_among(names, j, k, by_day).insert(
            bk,
        ));
    } else {
        assert(newer_among(names, j + 1, k, by_day) =~= newer_among(names, j, k, by_day));
    }
}

/// Whether `x` occurs in `v`.
fn contains_i64(v: &Vec<i64>, x: i64) -> (r: bool)
    ensures
        r == v@.contains(x),
{
    let mut i: usize = 0;
    while i < v.len()
        invariant
            i <= v.len(),
            forall|j: int| 0 <= j < i ==> v@[j] != x,
        decreases v.len() - i,
    {
        if v[i] == x {
            return true;
        }
        i = i + 1;
    }
    false
}

/// Whether the name recorded at `i` is deleted.
fn doomed_at(
    info: &Vec<Option<(u64, i64, i64)>>,
    Ghost(names): Ghost<Seq<Seq<char>>>,
    i: usize,
    keep_daily: usize,
    keep_weekly: usize,
) -> (r: bool)
    requires
        i < info.len(),
        info.len() == names.len(),
        forall|j: int| 0 <= j < info.len() ==> info_of(#[trigger] info@[j], names[j]),
    ensures
        r == doomed(names, names[i as int], keep_daily as int, keep_weekly as int),
{
    assert(info_of(info@[i as int], names[i as int]));
    match info[i] {
        Some((k, dk, wk)) => {
            let newest_day = newest_in(info, Ghost(names), k, dk, true);
            let newest_week = newest_in(info, Ghost(names), k, wk, false);
            let keep = (newest_day && count_newer(info, Ghost(names), k, true) < keep_daily) || (
            newest_week && count_newer(info, Ghost(names), k, false) < keep_weekly);
            !keep
        },
        None => false,
    }
}

proof fn lemma_filter_step(s: Seq<Seq<char>>, i: int, p: spec_fn(Seq<char>) -> bool)
    requires
        0 <= i < s.len(),
    ensures
        s.take(i + 1).filter(p) == (if p(s[i]) {
            s.take(i).filter(p).push(s[i])
        } else {
            s.take(i).filter(p)
        }),
{
    reveal(Seq::filter);
    assert(s.take(i + 1).drop_last() =~= s.take(i));
}

/// Rotation policy over snapshot names: keep the newest snapshot of each of the
/// `keep_daily` most recent calendar days and of each of the `keep_weekly` most
/// recent ISO weeks; return the names to delete, newest first (by name, which
/// for stamps is by time). Quarantined (`-SUSPECT`) and unparseable names are
/// never deleted. The policy reads no clock, so it is a pure function of the
/// names.
pub fn plan_rotation(dirs: &[String], keep_daily: usize, keep_weekly: usize) -> (r: Vec<String>)
    ensures
        names_of(r@).to_multiset() == rotation_spec(names_of(dirs@), keep_daily as int, keep_weekly as int).to_multiset(),
        descending(names_of(r@)),
{
    let ghost names = names_of(dirs@);
    let mut info: Vec<Option<(u64, i64, i64)>> = Vec::new();
    let mut i: usize = 0;
    while i < dirs.len()
        invariant
            i <= dirs.len(),
            names == names_of(dirs@),
            info.len() == i,
            forall|j: int| 0 <= j < i ==> info_of(#[trigger] info@[j], names[j]),
        decreases dirs.len() - i,
    {
        let x = rotation_info(&dirs[i]);
        info.push(x);
        i = i + 1;
    }
    let mut out: Vec<String> = Vec::new();
    let ghost pred = |s: Seq<char>| doomed(names, s, keep_daily as int, keep_weekly as int);
    let mut i: usize = 0;
    while i < dirs.len()
        invariant
            i <= dirs.len(),
            names == names_of(dirs@),
            info.len() == dirs.len(),
            forall|j: int| 0 <= j < dirs.len() ==> info_of(#[trigger] info@[j], names[j]),
            pred == (|s: Seq<char>| doomed(names, s, keep_daily as int, keep_weekly as int)),
            names_of(out@) == names.take(i as int).filter(pred),
        decreases dirs.len() - i,
    {
        proof {
            lemma_filter_step(names, i as int, pred);
        }
        let d = doomed_at(&info, Ghost(names), i, keep_daily, keep_weekly);
        if d {
            let ghost before = out@;
            out.push(dirs[i].clone());
            assert(names_of(out@) =~= names_of(before).push(names[i as int]));
        }
        i = i + 1;
    }
    assert(names.take(dirs.len() as int) =~= names);
    let sorted = newest_first_names(out);
    proof {
        assert(names_of(sorted@) =~= sorted@.map_values(|s: String| s@));
        assert(names_of(out@) =~= out@.map_values(|s: String| s@));
        crate::xref_report::lemma_map_multiset(sorted@, out@, |s: String| s@);
    }
    sorted
}

/// Names in non-increasing lexical order: newest first for stamps.
pub open spec fn descending(names: Seq<Seq<char>>) -> bool {
    forall|i: int, j: int| 0 <= i < j < names.len() ==> !seq_lt(#[trigger] names[i], #[trigger] names[j])
}

/// Order names newest first (descending by name).
fn newest_first_names(names: Vec<String>) -> (r: Vec<String>)
    ensures
        r@.to_multiset() == names@.to_multiset(),
        descending(names_of(r@)),
{
    let mut out: Vec<String> = Vec::new();
    let mut rest = names;
    let ghost orig = rest@;
    let n0: usize = rest.len();
    let mut k: usize = 0;
    while rest.len() > 0
        invariant
            k <= orig.len(),
            rest.len() + k == orig.len(),
            orig.len() == n0,
            rest@ == orig.skip(k as int),
            out@.to_multiset() == orig.take(k as int).to_multiset(),
            descending(names_of(out@)),
        decreases rest.len(),
    {
        proof {
            assert(orig.skip(k as int)[0] == orig[k as int]);
            assert(orig.skip(k as int).remove(0) =~= orig.skip(k + 1));
            assert(orig.take(k + 1) =~= orig.take(k as int).push(orig[k as int]));
        }
        let e = rest.remove(0);
        // Insert after every name not smaller than it.
        let mut p: usize = 0;
        while p < out.len() && !str_lt(out[p].as_str(), e.as_str())
            invariant
                p <= out.len(),
                forall|q: int| 0 <= q < p ==> !seq_lt(#[trigger] out@[q]@, e@),
            decreases out.len() - p,
        {
            p = p + 1;
        }
        let ghost before = out@;
        proof {
            assert forall|q: int| p <= q < before.len() implies seq_lt(#[trigger] before[q]@, e@) by {
                let v = names_of(before);
                if q > p {
                    assert(!seq_lt(v[p as int], v[q]));
                    lemma_seq_lt_total(before[q]@, before[p as int]@);
                    if before[q]@ != before[p as int]@ {
                        lemma_seq_lt_trans(before[q]@, before[p as int]@, e@);
                    }
                }
            }
        }
        out.insert(p, e);
        proof {
            let v = names_of(out@);
            let bv = names_of(before);
            assert forall|i: int, j: int| 0 <= i < j < v.len() implies !seq_lt(#[trigger] v[i], #[trigger] v[j]) by {
                if j < p {
                    assert(v[i] == bv[i] && v[j] == bv[j]);
                } else if j == p {
                    assert(v[j] == e@);
                    assert(v[i] == before[i]@);
                } else if i > p {
                    assert(v[i] == bv[i - 1] && v[j] == bv[j - 1]);
                } else if i == p {
                    assert(v[i] == e@);
                    assert(v[j] == before[j - 1]@);
                    lemma_seq_lt_asym(before[j - 1]@, e@);
                } else {
                    assert(v[i] == bv[i] && v[j] == bv[j - 1]);
                }
            }
            assert(out@ == before.insert(p as int, e));
            vstd::seq_lib::to_multiset_insert(before, p as int, e);
        }
        k = k + 1;
    }
    proof {
        assert(orig.take(orig.len() as int) =~= orig);
    }
    out
}

} // verus!

verus! {

// ---- laws -------------------------------------------------------------------

/// A rotation only deletes names it was given, and never a quarantined
/// (`-SUSPECT`) name or one that is not a snapshot stamp.
pub proof fn lemma_rotation_spares_quarantined(names: Seq<Seq<char>>, keep_daily: int, keep_weekly: int)
    ensures
        forall|s: Seq<char>| #[trigger]
            rotation_spec(names, keep_daily, keep_weekly).contains(s) ==> names.contains(s)
                && in_rotation(s),
{
    let p = |s: Seq<char>| doomed(names, s, keep_daily, keep_weekly);
    assert forall|s: Seq<char>| #[trigger]
        rotation_spec(names, keep_daily, keep_weekly).contains(s) implies names.contains(s)
        && in_rotation(s) by {
        let f = names.filter(p);
        let idx = choose|idx: int| 0 <= idx < f.len() && f[idx] == s;
        names.lemma_filter_pred(p, idx);
        lemma_filter_subset(names, p, idx);
    }
}

/// With at least one daily slot, the newest snapshot is never deleted.
pub proof fn lemma_rotation_keeps_newest(
    names: Seq<Seq<char>>,
    i: int,
    keep_daily: int,
    keep_weekly: int,
)
    requires
        0 <= i < names.len(),
        in_rotation(names[i]),
        forall|j: int|
            0 <= j < names.len() && in_rotation(#[trigger] names[j]) ==> stamp_key(names[j])
                <= stamp_key(names[i]),
        keep_daily >= 1,
    ensures
        !rotation_spec(names, keep_daily, keep_weekly).contains(names[i]),
{
    let p = |s: Seq<char>| doomed(names, s, keep_daily, keep_weekly);
    let s = names[i];
    assert(newer_buckets(names, stamp_key(s), true) =~= Set::empty());
    assert(retained(names, s, keep_daily, keep_weekly));
    if names.filter(p).contains(s) {
        let f = names.filter(p);
        let idx = choose|idx: int| 0 <= idx < f.len() && f[idx] == s;
        names.lemma_filter_pred(p, idx);
    }
}

proof fn lemma_filter_subset(s: Seq<Seq<char>>, p: spec_fn(Seq<char>) -> bool, idx: int)
    requires
        0 <= idx < s.filter(p).len(),
    ensures
        s.contains(s.filter(p)[idx]),
    decreases s.len(),
{
    reveal(Seq::filter);
    if s.len() > 0 {
        let rest = s.drop_last();
        if p(s.last()) && idx == rest.filter(p).len() {
            assert(s[s.len() - 1] == s.last());
        } else {
            lemma_filter_subset(rest, p, idx);
            let w = choose|w: int| 0 <= w < rest.len() && rest[w] == s.filter(p)[idx];
            assert(s[w] == rest[w]);
        }
    }
}

} // verus!
