//! Tokenizing and joining: splitting text into the maximal runs between
//! separator characters, joining token lists, and trimming character classes
//! off the end of a string.

use vstd::prelude::*;
use crate::text::{
    is_alphanumeric, is_alphanumeric_spec, is_whitespace, is_whitespace_spec, push_char, push_str,
};

verus! {

/// Which characters separate tokens.
#[derive(Debug, Clone, Copy, PartialEq, Eq, Structural)]
pub enum Sep {
    /// Unicode whitespace (`str::split_whitespace`).
    Whitespace,
    /// Anything that is not alphanumeric.
    NonAlphanumeric,
}

/// Whether `c` separates tokens under `sep`.
pub open spec fn is_sep(sep: Sep, c: char) -> bool {
    match sep {
        Sep::Whitespace => is_whitespace_spec(c),
        Sep::NonAlphanumeric => !is_alphanumeric_spec(c),
    }
}

/// Whether `c` separates tokens under `sep`.
pub fn sep_at(sep: Sep, c: char) -> (r: bool)
    ensures
        r == is_sep(sep, c),
{
    match sep {
        Sep::Whitespace => is_whitespace(c),
        Sep::NonAlphanumeric => !is_alphanumeric(c),
    }
}

/// The pieces of `s` between separators, empty pieces included (`str::split`).
pub open spec fn segments(s: Seq<char>, sep: Sep) -> Seq<Seq<char>>
    decreases s.len(),
{
    if s.len() == 0 {
        seq![Seq::<char>::empty()]
    } else {
        let prev = segments(s.drop_last(), sep);
        if is_sep(sep, s.last()) {
            prev.push(Seq::<char>::empty())
        } else {
            prev.update(prev.len() - 1, prev.last().push(s.last()))
        }
    }
}

/// The non-empty members of a list of strings, in order.
pub open spec fn nonempty(ws: Seq<Seq<char>>) -> Seq<Seq<char>>
    decreases ws.len(),
{
    if ws.len() == 0 {
        Seq::empty()
    } else {
        let p = nonempty(ws.drop_last());
        if ws.last().len() > 0 {
            p.push(ws.last())
        } else {
            p
        }
    }
}

/// The maximal runs of non-separator characters of `s`, in order.
pub open spec fn tokens(s: Seq<char>, sep: Sep) -> Seq<Seq<char>> {
    nonempty(segments(s, sep))
}

/// `ws` joined with `sep` between consecutive members.
pub open spec fn join(ws: Seq<Seq<char>>, sep: Seq<char>) -> Seq<char>
    decreases ws.len(),
{
    if ws.len() == 0 {
        Seq::empty()
    } else if ws.len() == 1 {
        ws[0]
    } else {
        join(ws.drop_last(), sep) + sep + ws.last()
    }
}

/// `s` with every trailing character satisfying `p` removed.
pub open spec fn trim_end_by(s: Seq<char>, p: spec_fn(char) -> bool) -> Seq<char>
    decreases s.len(),
{
    if s.len() > 0 && p(s.last()) {
        trim_end_by(s.drop_last(), p)
    } else {
        s
    }
}

/// `s` with every leading character satisfying `p` removed.
pub open spec fn trim_start_by(s: Seq<char>, p: spec_fn(char) -> bool) -> Seq<char>
    decreases s.len(),
{
    if s.len() > 0 && p(s[0]) {
        trim_start_by(s.drop_first(), p)
    } else {
        s
    }
}

/// Unicode whitespace, as a predicate value.
pub open spec fn ws_pred() -> spec_fn(char) -> bool {
    |c: char| is_whitespace_spec(c)
}

/// `str::trim`: leading and trailing whitespace removed.
pub open spec fn trim_spec(s: Seq<char>) -> Seq<char> {
    trim_start_by(trim_end_by(s, ws_pred()), ws_pred())
}

proof fn lemma_segments_nonempty(s: Seq<char>, sep: Sep)
    ensures
        segments(s, sep).len() >= 1,
    decreases s.len(),
{
    if s.len() > 0 {
        lemma_segments_nonempty(s.drop_last(), sep);
    }
}

/// The tokens of `v` under `sep`, each as a character vector.
pub fn tokenize(v: &Vec<char>, sep: Sep) -> (r: Vec<Vec<char>>)
    ensures
        r@.map_values(|w: Vec<char>| w@) == tokens(v@, sep),
{
    let mut done: Vec<Vec<char>> = Vec::new();
    let mut cur: Vec<char> = Vec::new();
    let mut i: usize = 0;
    proof {
        assert(v@.take(0) =~= Seq::<char>::empty());
        assert(segments(Seq::<char>::empty(), sep).drop_last() =~= Seq::<Seq<char>>::empty());
    }
    while i < v.len()
        invariant
            i <= v.len(),
            segments(v@.take(i as int), sep).len() >= 1,
            done@.map_values(|w: Vec<char>| w@) == nonempty(
                segments(v@.take(i as int), sep).drop_last(),
            ),
            cur@ == segments(v@.take(i as int), sep).last(),
        decreases v.len() - i,
    {
        let c = v[i];
        let ghost pre = v@.take(i as int);
        let ghost seg = segments(pre, sep);
        assert(v@.take(i + 1).drop_last() =~= pre);
        assert(v@.take(i + 1).last() == c);
        proof {
            lemma_segments_nonempty(v@.take(i + 1), sep);
        }
        if sep_at(sep, c) {
            let ghost done_before = done@.map_values(|w: Vec<char>| w@);
            if cur.len() > 0 {
                let w = cur;
                done.push(w);
                cur = Vec::new();
                proof {
                    assert(seg.push(Seq::<char>::empty()).drop_last() =~= seg);
                    assert(seg =~= seg.drop_last().push(seg.last()));
                    assert(done@.map_values(|w: Vec<char>| w@) =~= done_before.push(w@));
                }
            } else {
                proof {
                    assert(seg.push(Seq::<char>::empty()).drop_last() =~= seg);
                    assert(seg =~= seg.drop_last().push(seg.last()));
                }
            }
        } else {
            cur.push(c);
            proof {
                assert(seg.update(seg.len() - 1, seg.last().push(c)).drop_last() =~= seg.drop_last());
            }
        }
        i = i + 1;
    }
    proof {
        assert(v@.take(v.len() as int) =~= v@);
    }
    let ghost seg = segments(v@, sep);
    let ghost done_before = done@.map_values(|w: Vec<char>| w@);
    if cur.len() > 0 {
        let w = cur;
        done.push(w);
        proof {
            assert(seg =~= seg.drop_last().push(seg.last()));
            assert(done@.map_values(|w: Vec<char>| w@) =~= done_before.push(w@));
        }
    } else {
        proof {
            assert(seg =~= seg.drop_last().push(seg.last()));
        }
    }
    done
}

/// Appends `ws` joined with `sep` between consecutive members.
pub fn push_joined(out: &mut String, ws: &Vec<Vec<char>>, sep: &str)
    ensures
        final(out)@ == old(out)@ + join(ws@.map_values(|w: Vec<char>| w@), sep@),
{
    let ghost all = ws@.map_values(|w: Vec<char>| w@);
    let ghost start = out@;
    let mut i: usize = 0;
    while i < ws.len()
        invariant
            i <= ws.len(),
            all == ws@.map_values(|w: Vec<char>| w@),
            out@ == start + join(all.take(i as int), sep@),
        decreases ws.len() - i,
    {
        if i > 0 {
            push_str(out, sep);
        }
        let w = &ws[i];
        let mut j: usize = 0;
        let ghost mid = out@;
        while j < w.len()
            invariant
                j <= w.len(),
                out@ == mid + w@.take(j as int),
            decreases w.len() - j,
        {
            push_char(out, w[j]);
            assert(w@.take(j + 1) =~= w@.take(j as int).push(w@[j as int]));
            j = j + 1;
        }
        proof {
            assert(w@.take(w.len() as int) =~= w@);
            assert(all.take(i + 1).drop_last() =~= all.take(i as int));
            assert(all.take(i + 1).last() == w@);
            if i == 0 {
                assert(all.take(1) =~= seq![w@]);
            }
        }
        i = i + 1;
    }
    proof {
        assert(all.take(ws.len() as int) =~= all);
    }
}

/// Length of `s` once every trailing character satisfying `sep`-style class
/// `p` is dropped; `trim_end_by(s, p) == s.take(result)`.
pub fn trim_end_len(v: &Vec<char>, punct: bool) -> (n: usize)
    ensures
        n <= v.len(),
        v@.take(n as int) == trim_end_by(v@, end_pred(punct)),
{
    let mut n = v.len();
    proof {
        assert(v@.take(n as int) =~= v@);
    }
    while n > 0 && end_char(v[n - 1], punct)
        invariant
            n <= v.len(),
            trim_end_by(v@.take(n as int), end_pred(punct)) == trim_end_by(v@, end_pred(punct)),
        decreases n,
    {
        assert(v@.take(n as int).drop_last() =~= v@.take(n - 1));
        n = n - 1;
    }
    proof {
        let t = v@.take(n as int);
        if n > 0 {
            assert(t.last() == v@[n - 1]);
        }
    }
    n
}

/// The trailing-character class to trim: ASCII sentence punctuation
/// `. , ; : ! ?` when `punct`, else Unicode whitespace.
pub open spec fn end_pred(punct: bool) -> spec_fn(char) -> bool {
    if punct {
        |c: char| c == '.' || c == ',' || c == ';' || c == ':' || c == '!' || c == '?'
    } else {
        ws_pred()
    }
}

fn end_char(c: char, punct: bool) -> (r: bool)
    ensures
        r == end_pred(punct)(c),
{
    if punct {
        c == '.' || c == ',' || c == ';' || c == ':' || c == '!' || c == '?'
    } else {
        is_whitespace(c)
    }
}

/// Number of leading whitespace characters of `v`;
/// `trim_start_by(v, ws) == v.skip(result)`.
pub fn trim_start_len(v: &Vec<char>) -> (n: usize)
    ensures
        n <= v.len(),
        v@.skip(n as int) == trim_start_by(v@, ws_pred()),
{
    let mut n: usize = 0;
    proof {
        assert(v@.skip(0) =~= v@);
    }
    while n < v.len() && is_whitespace(v[n])
        invariant
            n <= v.len(),
            trim_start_by(v@.skip(n as int), ws_pred()) == trim_start_by(v@, ws_pred()),
        decreases v.len() - n,
    {
        assert(v@.skip(n as int).drop_first() =~= v@.skip(n + 1));
        n = n + 1;
    }
    proof {
        if n < v.len() {
            assert(v@.skip(n as int)[0] == v@[n as int]);
        }
    }
    n
}

} // verus!
