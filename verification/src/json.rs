//! A plain JSON value (the shape artifact metadata and lineage context take) and
//! the compact JSON text encoding of strings, as `serde_json` writes it.

use vstd::prelude::*;
use crate::text::{chars_of, push_char, push_str};

verus! {

/// A JSON value. Numbers keep their literal text; object members keep their
/// order and are unique by key.
#[derive(Debug)]
pub enum Json {
    Null,
    Bool(bool),
    Number(String),
    Str(String),
    Array(Vec<Json>),
    Object(Vec<(String, Json)>),
}

impl Json {
    /// The value stored under `key` when `self` is an object holding it.
    pub open spec fn get_spec(self, key: Seq<char>) -> Option<Json> {
        match self {
            Json::Object(members) => first_member(members@, key),
            _ => None,
        }
    }

    /// The member named `key` of an object, if any.
    pub fn get(&self, key: &str) -> (r: Option<&Json>)
        ensures
            r is Some <==> self.get_spec(key@) is Some,
            r matches Some(v) ==> self.get_spec(key@) == Some(*v),
    {
        match self {
            Json::Object(members) => {
                let mut i: usize = 0;
                assert(members@.skip(0) =~= members@);
                while i < members.len()
                    invariant
                        i <= members.len(),
                        self.get_spec(key@) == first_member(members@, key@),
                        first_member(members@, key@) == first_member(
                            members@.skip(i as int),
                            key@,
                        ),
                    decreases members.len() - i,
                {
                    assert(members@.skip(i as int).drop_first() =~= members@.skip(i + 1));
                    assert(members@.skip(i as int)[0] == members@[i as int]);
                    if crate::text::str_eq(members[i].0.as_str(), key) {
                        assert(members@.skip(i as int).len() > 0);
                        assert(members@.skip(i as int)[0].0@ == key@);
                        assert(first_member(members@.skip(i as int), key@) == Some(
                            members@[i as int].1,
                        ));
                        return Some(&members[i].1);
                    }
                    i = i + 1;
                }
                assert(members@.skip(i as int) =~= Seq::<(String, Json)>::empty());
                None
            },
            _ => None,
        }
    }
}

/// The first member of `members` named `key`.
pub open spec fn first_member(members: Seq<(String, Json)>, key: Seq<char>) -> Option<Json>
    decreases members.len(),
{
    if members.len() == 0 {
        None
    } else if members[0].0@ == key {
        Some(members[0].1)
    } else {
        first_member(members.drop_first(), key)
    }
}

/// Lowercase hexadecimal digit of `d < 16`.
pub open spec fn hex_digit(d: int) -> char {
    if d < 10 {
        (d + 48) as char
    } else {
        (d + 87) as char
    }
}

/// How `serde_json` writes one character inside a string literal: the two
/// mandatory escapes, the short escapes for control characters that have one,
/// `\u00XX` for the remaining control characters, and everything else as is.
pub open spec fn json_escape_char(c: char) -> Seq<char> {
    if c == '"' {
        seq!['\\', '"']
    } else if c == '\\' {
        seq!['\\', '\\']
    } else if c == '\n' {
        seq!['\\', 'n']
    } else if c == '\r' {
        seq!['\\', 'r']
    } else if c == '\t' {
        seq!['\\', 't']
    } else if c == '\x08' {
        seq!['\\', 'b']
    } else if c == '\x0C' {
        seq!['\\', 'f']
    } else if (c as int) < 0x20 {
        seq!['\\', 'u', '0', '0', hex_digit((c as int) / 16), hex_digit((c as int) % 16)]
    } else {
        seq![c]
    }
}

/// The escaped body of a string literal.
pub open spec fn json_escaped(s: Seq<char>) -> Seq<char>
    decreases s.len(),
{
    if s.len() == 0 {
        Seq::empty()
    } else {
        json_escaped(s.drop_last()) + json_escape_char(s.last())
    }
}

/// A JSON string literal for `s`.
pub open spec fn json_str(s: Seq<char>) -> Seq<char> {
    seq!['"'] + json_escaped(s) + seq!['"']
}

fn hex_digit_char(d: u32) -> (c: char)
    requires
        d < 16,
    ensures
        c == hex_digit(d as int),
{
    match d {
        0 => '0',
        1 => '1',
        2 => '2',
        3 => '3',
        4 => '4',
        5 => '5',
        6 => '6',
        7 => '7',
        8 => '8',
        9 => '9',
        10 => 'a',
        11 => 'b',
        12 => 'c',
        13 => 'd',
        14 => 'e',
        _ => 'f',
    }
}

/// Appends the escaped form of one character.
pub fn push_escaped_char(out: &mut String, c: char)
    ensures
        final(out)@ == old(out)@ + json_escape_char(c),
{
    if c == '"' {
        push_str(out, "\\\"");
        proof { reveal_strlit("\\\""); }
    } else if c == '\\' {
        push_str(out, "\\\\");
        proof { reveal_strlit("\\\\"); }
    } else if c == '\n' {
        push_str(out, "\\n");
        proof { reveal_strlit("\\n"); }
    } else if c == '\r' {
        push_str(out, "\\r");
        proof { reveal_strlit("\\r"); }
    } else if c == '\t' {
        push_str(out, "\\t");
        proof { reveal_strlit("\\t"); }
    } else if c == '\x08' {
        push_str(out, "\\b");
        proof { reveal_strlit("\\b"); }
    } else if c == '\x0C' {
        push_str(out, "\\f");
        proof { reveal_strlit("\\f"); }
    } else if (c as u32) < 0x20 {
        push_str(out, "\\u00");
        proof { reveal_strlit("\\u00"); }
        let v = c as u32;
        push_char(out, hex_digit_char(v / 16));
        push_char(out, hex_digit_char(v % 16));
    } else {
        push_char(out, c);
    }
    proof {
        assert(out@ =~= old(out)@ + json_escape_char(c));
    }
}

/// Appends `s` as a JSON string literal, quotes included.
pub fn push_json_str(out: &mut String, s: &str)
    ensures
        final(out)@ == old(out)@ + json_str(s@),
{
    let v = chars_of(s);
    push_char(out, '"');
    let ghost start = out@;
    let mut i: usize = 0;
    while i < v.len()
        invariant
            i <= v.len(),
            v@ == s@,
            out@ == start + json_escaped(v@.take(i as int)),
        decreases v.len() - i,
    {
        push_escaped_char(out, v[i]);
        proof {
            assert(v@.take(i + 1).drop_last() =~= v@.take(i as int));
            assert(v@.take(i + 1).last() == v@[i as int]);
        }
        i = i + 1;
    }
    push_char(out, '"');
    proof {
        assert(v@.take(v.len() as int) =~= v@);
        assert(out@ =~= old(out)@ + json_str(s@));
    }
}

} // verus!

verus! {

/// The compact JSON text of a value, as `serde_json` writes it: numbers as
/// their literal text, strings escaped, no whitespace, members in order.
pub open spec fn json_text(j: Json) -> Seq<char>
    decreases j, 1nat, 0nat,
{
    match j {
        Json::Null => "null"@,
        Json::Bool(b) => if b {
            "true"@
        } else {
            "false"@
        },
        Json::Number(n) => n@,
        Json::Str(s) => json_str(s@),
        Json::Array(items) => seq!['['] + json_items_text(j, items@.len()) + seq![']'],
        Json::Object(members) => seq!['{'] + json_members_text(j, members@.len()) + seq!['}'],
    }
}

/// The first `n` elements of array `j`, comma-separated.
pub open spec fn json_items_text(j: Json, n: nat) -> Seq<char>
    decreases j, 0nat, n,
{
    match j {
        Json::Array(items) => if n == 0 || n > items@.len() {
            Seq::empty()
        } else {
            proof {
                assert(decreases_to!(j => items));
                assert(decreases_to!(items => items@));
                assert(decreases_to!(items@ => items@[n - 1]));
            }
            (if n == 1 {
                Seq::empty()
            } else {
                json_items_text(j, (n - 1) as nat) + seq![',']
            }) + json_text(items@[n - 1])
        },
        _ => Seq::empty(),
    }
}

/// The first `n` members of object `j`, `"key":value`, comma-separated.
pub open spec fn json_members_text(j: Json, n: nat) -> Seq<char>
    decreases j, 0nat, n,
{
    match j {
        Json::Object(members) => if n == 0 || n > members@.len() {
            Seq::empty()
        } else {
            proof {
                assert(decreases_to!(j => members));
                assert(decreases_to!(members => members@));
                assert(decreases_to!(members@ => members@[n - 1]));
                assert(decreases_to!(members@[n - 1] => members@[n - 1].1));
            }
            (if n == 1 {
                Seq::empty()
            } else {
                json_members_text(j, (n - 1) as nat) + seq![',']
            }) + json_str(members@[n - 1].0@) + seq![':'] + json_text(members@[n - 1].1)
        },
        _ => Seq::empty(),
    }
}

} // verus!

verus! {

/// Appends the compact JSON text of `j`.
pub fn push_json(out: &mut String, j: &Json)
    ensures
        final(out)@ == old(out)@ + json_text(*j),
    decreases *j,
{
    match j {
        Json::Null => push_str(out, "null"),
        Json::Bool(b) => {
            if *b {
                push_str(out, "true");
            } else {
                push_str(out, "false");
            }
        },
        Json::Number(n) => push_str(out, n.as_str()),
        Json::Str(s) => push_json_str(out, s.as_str()),
        Json::Array(items) => {
            push_char(out, '[');
            let ghost start = out@;
            let mut i: usize = 0;
            while i < items.len()
                invariant
                    i <= items.len(),
                    *j == Json::Array(*items),
                    out@ == start + json_items_text(*j, i as nat),
                decreases items.len() - i,
            {
                if i > 0 {
                    push_char(out, ',');
                }
                proof {
                    assert((*j)->Array_0 == *items);
                    assert(decreases_to!(*j => (*j)->Array_0));
                    assert(decreases_to!(*items => items@));
                    assert(decreases_to!(items@ => items@[i as int]));
                }
                push_json(out, &items[i]);
                proof {
                    assert(out@ =~= start + json_items_text(*j, (i + 1) as nat));
                }
                i = i + 1;
            }
            push_char(out, ']');
            assert(out@ =~= old(out)@ + json_text(*j));
        },
        Json::Object(members) => {
            push_char(out, '{');
            let ghost start = out@;
            let mut i: usize = 0;
            while i < members.len()
                invariant
                    i <= members.len(),
                    *j == Json::Object(*members),
                    out@ == start + json_members_text(*j, i as nat),
                decreases members.len() - i,
            {
                if i > 0 {
                    push_char(out, ',');
                }
                push_json_str(out, members[i].0.as_str());
                push_char(out, ':');
                proof {
                    assert((*j)->Object_0 == *members);
                    assert(decreases_to!(*j => (*j)->Object_0));
                    assert(decreases_to!(*members => members@));
                    assert(decreases_to!(members@ => members@[i as int]));
                    assert(decreases_to!(members@[i as int] => members@[i as int].1));
                }
                push_json(out, &members[i].1);
                proof {
                    assert(out@ =~= start + json_members_text(*j, (i + 1) as nat));
                }
                i = i + 1;
            }
            push_char(out, '}');
            assert(out@ =~= old(out)@ + json_text(*j));
        },
    }
}

/// The compact JSON text of `j`.
pub fn to_json_text(j: &Json) -> (s: String)
    ensures
        s@ == json_text(*j),
{
    let mut s = String::new();
    push_json(&mut s, j);
    s
}

} // verus!
