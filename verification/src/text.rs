//! Character-level text helpers shared by the parsers and renderers: moving
//! between `&str`/`String` and character sequences, decimal rendering, and the
//! classification predicates (whitespace, alphanumerics, case) the rest of the
//! library is specified against.

use vstd::prelude::*;

verus! {

// ---- character classes ------------------------------------------------------

/// ASCII decimal digit `0`..`9`.
pub open spec fn is_ascii_digit_spec(c: char) -> bool {
    '0' <= c && c <= '9'
}

/// The Unicode `White_Space` property, which `char::is_whitespace` reports: a
/// fixed list of 25 code points.
pub open spec fn is_whitespace_spec(c: char) -> bool {
    let u = c as u32;
    (0x09 <= u && u <= 0x0D) || u == 0x20 || u == 0x85 || u == 0xA0 || u == 0x1680 || (0x2000 <= u
        && u <= 0x200A) || u == 0x2028 || u == 0x2029 || u == 0x202F || u == 0x205F || u == 0x3000
}

/// The Unicode alphanumeric property as `char::is_alphanumeric` reports it.
pub uninterp spec fn is_alphanumeric_spec(c: char) -> bool;

/// What `str::to_lowercase` produces for a string.
pub uninterp spec fn to_lowercase_spec(s: Seq<char>) -> Seq<char>;

/// What `str::to_uppercase` produces for a string.
pub uninterp spec fn to_uppercase_spec(s: Seq<char>) -> Seq<char>;

/// The ASCII whitespace characters of `char::is_whitespace`.
pub open spec fn is_ascii_ws(c: char) -> bool {
    c == ' ' || c == '\t' || c == '\n' || c == '\r' || c == '\x0B' || c == '\x0C'
}

pub open spec fn is_ascii_char(c: char) -> bool {
    (c as int) < 128
}

pub open spec fn is_ascii_alnum(c: char) -> bool {
    ('0' <= c && c <= '9') || ('a' <= c && c <= 'z') || ('A' <= c && c <= 'Z')
}

pub open spec fn ascii_lower(c: char) -> char {
    if 'A' <= c && c <= 'Z' {
        ((c as int) + 32) as char
    } else {
        c
    }
}

pub open spec fn ascii_upper(c: char) -> char {
    if 'a' <= c && c <= 'z' {
        ((c as int) - 32) as char
    } else {
        c
    }
}

pub open spec fn all_ascii(s: Seq<char>) -> bool {
    forall|i: int| 0 <= i < s.len() ==> is_ascii_char(#[trigger] s[i])
}

/// Whether `c` carries the Unicode `White_Space` property, as
/// `char::is_whitespace` answers. For ASCII input that is space, tab, line
/// feed, vertical tab, form feed and carriage return, and nothing else.
pub fn is_whitespace(c: char) -> (r: bool)
    ensures
        r == is_whitespace_spec(c),
        is_ascii_char(c) ==> (r <==> is_ascii_ws(c)),
{
    let u = c as u32;
    (0x09 <= u && u <= 0x0D) || u == 0x20 || u == 0x85 || u == 0xA0 || u == 0x1680 || (0x2000 <= u
        && u <= 0x200A) || u == 0x2028 || u == 0x2029 || u == 0x202F || u == 0x205F || u == 0x3000
}

/// `char::is_alphanumeric`: Unicode `Alphabetic` or `Numeric`. For ASCII input
/// this is exactly `0-9`, `a-z`, `A-Z`.
#[verifier::external_body]
pub fn is_alphanumeric(c: char) -> (r: bool)
    ensures
        r == is_alphanumeric_spec(c),
        is_ascii_char(c) ==> (r <==> is_ascii_alnum(c)),
{
    c.is_alphanumeric()
}

/// `str::to_lowercase`: the full Unicode lowercase mapping of the string. On an
/// all-ASCII string it maps `A-Z` to `a-z` one for one and keeps every other
/// character.
#[verifier::external_body]
pub fn to_lowercase(s: &str) -> (r: String)
    ensures
        r@ == to_lowercase_spec(s@),
        all_ascii(s@) ==> r@ == s@.map_values(|c: char| ascii_lower(c)),
{
    s.to_lowercase()
}

/// `str::to_uppercase`: the full Unicode uppercase mapping of the string. On an
/// all-ASCII string it maps `a-z` to `A-Z` one for one and keeps every other
/// character.
#[verifier::external_body]
pub fn to_uppercase(s: &str) -> (r: String)
    ensures
        r@ == to_uppercase_spec(s@),
        all_ascii(s@) ==> r@ == s@.map_values(|c: char| ascii_upper(c)),
{
    s.to_uppercase()
}

/// `String::push`: appends one character.
#[verifier::external_body]
pub fn push_char(s: &mut String, c: char)
    ensures
        final(s)@ == old(s)@.push(c),
{
    s.push(c)
}

/// What `{:?}` prints for a string: the text in double quotes, with quotes,
/// backslashes and control or non-printable characters escaped.
pub uninterp spec fn debug_quoted_spec(s: Seq<char>) -> Seq<char>;

/// A string whose characters `{:?}` prints unchanged between its quotes.
pub open spec fn debug_plain(s: Seq<char>) -> bool {
    forall|i: int|
        0 <= i < s.len() ==> ' ' <= #[trigger] s[i] && s[i] <= '~' && s[i] != '"' && s[i] != '\\'
}

/// `format!("{:?}", s)` for a string: `s` in double quotes with Rust's debug
/// escapes. Printable ASCII other than `"` and `\` appears unchanged.
#[verifier::external_body]
pub fn debug_quoted(s: &str) -> (r: String)
    ensures
        r@ == debug_quoted_spec(s@),
        debug_plain(s@) ==> r@ == seq!['"'] + s@ + seq!['"'],
{
    format!("{s:?}")
}

// ---- conversions ------------------------------------------------------------

/// The characters of `s`, in order.
pub fn chars_of(s: &str) -> (v: Vec<char>)
    ensures
        v@ == s@,
{
    let mut v: Vec<char> = Vec::new();
    for c in it: s.chars()
        invariant
            v@ == it.seq().take(it.index() as int),
            it.seq() == s@,
    {
        v.push(c);
    }
    v
}

/// A `String` holding exactly the characters of `v[lo..hi]`.
pub fn string_from_range(v: &Vec<char>, lo: usize, hi: usize) -> (s: String)
    requires
        lo <= hi <= v.len(),
    ensures
        s@ == v@.subrange(lo as int, hi as int),
{
    let mut s = String::new();
    let mut i = lo;
    while i < hi
        invariant
            lo <= i <= hi <= v.len(),
            s@ == v@.subrange(lo as int, i as int),
        decreases hi - i,
    {
        push_char(&mut s, v[i]);
        i = i + 1;
    }
    s
}

/// A `String` holding exactly the characters of `v`.
pub fn string_from_chars(v: &Vec<char>) -> (s: String)
    ensures
        s@ == v@,
{
    let s = string_from_range(v, 0, v.len());
    assert(v@.subrange(0, v@.len() as int) =~= v@);
    s
}

/// Appends the characters of `t` to `s`.
pub fn push_str(s: &mut String, t: &str)
    ensures
        final(s)@ == old(s)@ + t@,
{
    s.append(t)
}

/// A fresh `String` equal to `t`.
pub fn string_of(t: &str) -> (s: String)
    ensures
        s@ == t@,
{
    t.to_owned()
}

/// Character-sequence equality of two strings.
pub fn str_eq(a: &str, b: &str) -> (r: bool)
    ensures
        r == (a@ == b@),
{
    let va = chars_of(a);
    let vb = chars_of(b);
    if va.len() != vb.len() {
        return false;
    }
    let mut i: usize = 0;
    while i < va.len()
        invariant
            va@ == a@,
            vb@ == b@,
            va.len() == vb.len(),
            i <= va.len(),
            forall|j: int| 0 <= j < i ==> va@[j] == vb@[j],
        decreases va.len() - i,
    {
        if va[i] != vb[i] {
            return false;
        }
        i = i + 1;
    }
    assert(va@ =~= vb@);
    true
}

/// Whether `s` begins with `p`.
pub open spec fn starts_with_spec(s: Seq<char>, p: Seq<char>) -> bool {
    p.len() <= s.len() && s.subrange(0, p.len() as int) == p
}

/// Whether `s` ends with `p`.
pub open spec fn ends_with_spec(s: Seq<char>, p: Seq<char>) -> bool {
    p.len() <= s.len() && s.subrange(s.len() - p.len(), s.len() as int) == p
}

/// The characters of each string.
pub open spec fn strings_view(v: Seq<String>) -> Seq<Seq<char>> {
    v.map_values(|x: String| x@)
}

/// Whether some member of `v` has the characters of `s`.
pub fn contains_str(v: &Vec<String>, s: &str) -> (r: bool)
    ensures
        r == strings_view(v@).contains(s@),
{
    let ghost vs = strings_view(v@);
    let mut i: usize = 0;
    while i < v.len()
        invariant
            i <= v.len(),
            vs == strings_view(v@),
            forall|j: int| 0 <= j < i ==> vs[j] != s@,
        decreases v.len() - i,
    {
        if str_eq(v[i].as_str(), s) {
            assert(vs[i as int] == s@);
            return true;
        }
        i = i + 1;
    }
    false
}

/// Whether the character sequence `s` begins with `p`.
pub fn seq_starts_with(s: &Vec<char>, p: &Vec<char>) -> (r: bool)
    ensures
        r == starts_with_spec(s@, p@),
{
    if p.len() > s.len() {
        return false;
    }
    let mut i: usize = 0;
    while i < p.len()
        invariant
            p.len() <= s.len(),
            i <= p.len(),
            forall|j: int| 0 <= j < i ==> s@[j] == p@[j],
        decreases p.len() - i,
    {
        if s[i] != p[i] {
            return false;
        }
        i = i + 1;
    }
    assert(s@.subrange(0, p@.len() as int) =~= p@);
    true
}

/// Whether the character sequence `s` ends with `p`.
pub fn seq_ends_with(s: &Vec<char>, p: &Vec<char>) -> (r: bool)
    ensures
        r == ends_with_spec(s@, p@),
{
    if p.len() > s.len() {
        return false;
    }
    let off = s.len() - p.len();
    let mut i: usize = 0;
    while i < p.len()
        invariant
            p.len() <= s.len(),
            off == s.len() - p.len(),
            i <= p.len(),
            forall|j: int| 0 <= j < i ==> s@[off + j] == p@[j],
        decreases p.len() - i,
    {
        if s[off + i] != p[i] {
            return false;
        }
        i = i + 1;
    }
    assert(s@.subrange(s@.len() - p@.len(), s@.len() as int) =~= p@);
    true
}

/// Whether `s` begins with `p`.
pub fn starts_with(s: &str, p: &str) -> (r: bool)
    ensures
        r == starts_with_spec(s@, p@),
{
    seq_starts_with(&chars_of(s), &chars_of(p))
}

/// Whether `s` ends with `p`.
pub fn ends_with(s: &str, p: &str) -> (r: bool)
    ensures
        r == ends_with_spec(s@, p@),
{
    seq_ends_with(&chars_of(s), &chars_of(p))
}

/// Whether `c` occurs in `s`.
pub fn contains_char(s: &str, c: char) -> (r: bool)
    ensures
        r == s@.contains(c),
{
    let v = chars_of(s);
    let mut i: usize = 0;
    while i < v.len()
        invariant
            v@ == s@,
            i <= v.len(),
            forall|j: int| 0 <= j < i ==> v@[j] != c,
        decreases v.len() - i,
    {
        if v[i] == c {
            assert(s@[i as int] == c);
            return true;
        }
        i = i + 1;
    }
    false
}

// ---- decimal rendering ------------------------------------------------------

/// The decimal digit character for `d` in `0..10`.
pub open spec fn digit_char(d: int) -> char {
    (d + 48) as char
}

/// Decimal digits of a natural number, most significant first (`0` is `"0"`).
pub open spec fn nat_digits(n: nat) -> Seq<char>
    decreases n,
{
    if n < 10 {
        seq![digit_char(n as int)]
    } else {
        nat_digits((n / 10) as nat).push(digit_char((n % 10) as int))
    }
}

/// Decimal rendering of an integer: a leading `-` for negatives.
pub open spec fn int_decimal(n: int) -> Seq<char> {
    if n < 0 {
        seq!['-'] + nat_digits((-n) as nat)
    } else {
        nat_digits(n as nat)
    }
}

/// `s` left-padded with `0` to at least `w` characters.
pub open spec fn zero_pad(s: Seq<char>, w: nat) -> Seq<char> {
    if s.len() >= w {
        s
    } else {
        Seq::new((w - s.len()) as nat, |i: int| '0') + s
    }
}

/// Zero-padded decimal rendering as `{n:0w}` prints it: the sign counts toward
/// the width and the zeros go after it.
pub open spec fn int_decimal_padded(n: int, w: nat) -> Seq<char> {
    if n < 0 {
        seq!['-'] + zero_pad(nat_digits((-n) as nat), if w >= 1 { (w - 1) as nat } else { 0 })
    } else {
        zero_pad(nat_digits(n as nat), w)
    }
}

proof fn lemma_nat_digits_len_pos(n: nat)
    ensures
        nat_digits(n).len() >= 1,
    decreases n,
{
    if n >= 10 {
        lemma_nat_digits_len_pos((n / 10) as nat);
    }
}

/// Reading back the decimal rendering of a natural number gives that number.
pub proof fn lemma_nat_digits_read_back(n: nat)
    ensures
        digits_value(nat_digits(n)) == n,
    decreases n,
{
    if n >= 10 {
        lemma_nat_digits_read_back((n / 10) as nat);
        let d = nat_digits(n);
        assert(d.drop_last() =~= nat_digits((n / 10) as nat));
        assert(d.last() == digit_char((n % 10) as int));
        assert((d.last() as int) - 48 == n % 10);
        assert(d.len() > 0);
        assert(digits_value(d) == digits_value(d.drop_last()) * 10 + ((d.last() as int) - 48));
        assert(digits_value(d.drop_last()) == n / 10);
        assert(n == (n / 10) * 10 + n % 10);
    } else {
        let d = nat_digits(n);
        assert(d.drop_last() =~= Seq::<char>::empty());
        assert(digits_value(d.drop_last()) == 0);
        assert((d.last() as int) - 48 == n);
        assert(digits_value(d) == digits_value(d.drop_last()) * 10 + ((d.last() as int) - 48));
    }
}

/// Appends the decimal digits of `n`.
pub fn push_u128(s: &mut String, n: u128)
    ensures
        final(s)@ == old(s)@ + nat_digits(n as nat),
    decreases n,
{
    if n < 10 {
        let c = char_of_digit(n as u8);
        push_char(s, c);
        assert(old(s)@.push(c) =~= old(s)@ + nat_digits(n as nat));
    } else {
        push_u128(s, n / 10);
        let c = char_of_digit((n % 10) as u8);
        push_char(s, c);
        assert(old(s)@ + nat_digits((n / 10) as nat) + seq![c] =~= old(s)@ + nat_digits(
            n as nat,
        ));
    }
}

/// The digit character for `d < 10`.
pub fn char_of_digit(d: u8) -> (c: char)
    requires
        d < 10,
    ensures
        c == digit_char(d as int),
{
    match d {
        0 => '0',
        1 => '1',
        2 => '2',
        3 => '3',
        4 => '4',
        5 => '5',
        6 => '6',
        7 => '7',
        8 => '8',
        _ => '9',
    }
}

/// Appends `n` in decimal, `-` first when negative.
pub fn push_i64(s: &mut String, n: i64)
    ensures
        final(s)@ == old(s)@ + int_decimal(n as int),
{
    if n < 0 {
        push_char(s, '-');
        let m: u128 = (0i128 - (n as i128)) as u128;
        push_u128(s, m);
        assert(old(s)@.push('-') + nat_digits(m as nat) =~= old(s)@ + (seq!['-'] + nat_digits(
            m as nat,
        )));
    } else {
        push_u128(s, n as u128);
    }
}

/// Appends `n` in decimal.
pub fn push_usize(s: &mut String, n: usize)
    ensures
        final(s)@ == old(s)@ + nat_digits(n as nat),
{
    push_u128(s, n as u128)
}

/// Appends `n` zero-padded to width `w`, as `{n:0w}` renders it.
pub fn push_i64_padded(s: &mut String, n: i64, w: usize)
    ensures
        final(s)@ == old(s)@ + int_decimal_padded(n as int, w as nat),
{
    let mut digits = String::new();
    let mag: u128 = if n < 0 {
        (0i128 - (n as i128)) as u128
    } else {
        n as u128
    };
    push_u128(&mut digits, mag);
    assert(digits@ =~= nat_digits(mag as nat));
    let dv = chars_of(digits.as_str());
    let width: usize = if n < 0 {
        if w >= 1 {
            w - 1
        } else {
            0
        }
    } else {
        w
    };
    if n < 0 {
        push_char(s, '-');
    }
    let ghost mid = s@;
    let mut k: usize = dv.len();
    while k < width
        invariant
            dv.len() <= k <= width || (k == dv.len() && width <= dv.len()),
            s@ == mid + Seq::new((k - dv.len()) as nat, |i: int| '0'),
        decreases width - k,
    {
        push_char(s, '0');
        assert(mid + Seq::new((k - dv.len()) as nat, |i: int| '0') + seq!['0'] =~= mid + Seq::new(
            ((k + 1) - dv.len()) as nat,
            |i: int| '0',
        ));
        k = k + 1;
    }
    let ghost pre = s@;
    push_str(s, digits.as_str());
    proof {
        if dv.len() >= width {
            assert(Seq::new((k - dv.len()) as nat, |i: int| '0') =~= Seq::<char>::empty());
            assert(zero_pad(nat_digits(mag as nat), width as nat) == nat_digits(mag as nat));
        } else {
            assert(k == width);
        }
        if n < 0 {
            assert(s@ =~= old(s)@ + int_decimal_padded(n as int, w as nat));
        } else {
            assert(s@ =~= old(s)@ + int_decimal_padded(n as int, w as nat));
        }
    }
}

// ---- decimal parsing --------------------------------------------------------

/// The value of a run of decimal digits.
pub open spec fn digits_value(s: Seq<char>) -> int
    decreases s.len(),
{
    if s.len() == 0 {
        0
    } else {
        digits_value(s.drop_last()) * 10 + ((s.last() as int) - 48)
    }
}

/// Every character of `s` is an ASCII digit.
pub open spec fn all_digits(s: Seq<char>) -> bool {
    forall|i: int| 0 <= i < s.len() ==> is_ascii_digit_spec(#[trigger] s[i])
}

/// `10^n`.
pub open spec fn pow10(n: nat) -> int
    decreases n,
{
    if n == 0 {
        1
    } else {
        10 * pow10((n - 1) as nat)
    }
}

proof fn lemma_pow10_mono(a: nat, b: nat)
    requires
        a <= b,
    ensures
        1 <= pow10(a) <= pow10(b),
    decreases b,
{
    if b > a {
        lemma_pow10_mono(a, (b - 1) as nat);
    } else if a > 0 {
        lemma_pow10_mono((a - 1) as nat, (a - 1) as nat);
    }
}

pub proof fn lemma_digits_value_bound(s: Seq<char>)
    requires
        all_digits(s),
    ensures
        0 <= digits_value(s) < pow10(s.len()),
    decreases s.len(),
{
    if s.len() > 0 {
        let p = s.drop_last();
        assert(all_digits(p));
        lemma_digits_value_bound(p);
        assert(is_ascii_digit_spec(s[s.len() - 1]));
    }
}

/// Whether `v[lo..hi]` is all ASCII digits, and if so its value.
pub fn parse_digits(v: &Vec<char>, lo: usize, hi: usize) -> (r: Option<u64>)
    requires
        lo <= hi <= v.len(),
        hi - lo <= 18,
    ensures
        r is Some <==> all_digits(v@.subrange(lo as int, hi as int)),
        r matches Some(n) ==> n as int == digits_value(v@.subrange(lo as int, hi as int)),
{
    let mut acc: u64 = 0;
    let mut i = lo;
    while i < hi
        invariant
            lo <= i <= hi <= v.len(),
            hi - lo <= 18,
            all_digits(v@.subrange(lo as int, i as int)),
            acc as int == digits_value(v@.subrange(lo as int, i as int)),
        decreases hi - i,
    {
        let c = v[i];
        let ghost pre = v@.subrange(lo as int, i as int);
        assert(v@.subrange(lo as int, i + 1).drop_last() =~= pre);
        if !('0' <= c && c <= '9') {
            assert(!is_ascii_digit_spec(v@.subrange(lo as int, hi as int)[i - lo]));
            return None;
        }
        proof {
            lemma_digits_value_bound(pre);
            lemma_pow10_mono(pre.len(), 17);
            assert(pow10(17) == 100000000000000000) by {
                reveal_with_fuel(pow10, 18);
            }
            assert(all_digits(v@.subrange(lo as int, i + 1)));
        }
        acc = acc * 10 + (c as u64 - 48);
        i = i + 1;
    }
    Some(acc)
}

} // verus!

verus! {

// ---- lexicographic order ------------------------------------------------------

/// Strict lexicographic order of character sequences by code point: the order
/// of `String`'s `Ord` (UTF-8 byte order and code-point order agree).
pub open spec fn seq_lt(a: Seq<char>, b: Seq<char>) -> bool
    decreases a.len(),
{
    if a.len() == 0 {
        b.len() > 0
    } else if b.len() == 0 {
        false
    } else if a[0] < b[0] {
        true
    } else if a[0] > b[0] {
        false
    } else {
        seq_lt(a.drop_first(), b.drop_first())
    }
}

pub proof fn lemma_seq_lt_irreflexive(a: Seq<char>)
    ensures
        !seq_lt(a, a),
    decreases a.len(),
{
    if a.len() > 0 {
        lemma_seq_lt_irreflexive(a.drop_first());
    }
}

pub proof fn lemma_seq_lt_trans(a: Seq<char>, b: Seq<char>, c: Seq<char>)
    requires
        seq_lt(a, b),
        seq_lt(b, c),
    ensures
        seq_lt(a, c),
    decreases a.len(),
{
    if a.len() > 0 && b.len() > 0 && c.len() > 0 {
        if a[0] == b[0] && b[0] == c[0] {
            lemma_seq_lt_trans(a.drop_first(), b.drop_first(), c.drop_first());
        }
    }
}

pub proof fn lemma_seq_lt_total(a: Seq<char>, b: Seq<char>)
    ensures
        a == b || seq_lt(a, b) || seq_lt(b, a),
    decreases a.len(),
{
    if a.len() > 0 && b.len() > 0 {
        if a[0] == b[0] {
            lemma_seq_lt_total(a.drop_first(), b.drop_first());
            if a.drop_first() == b.drop_first() {
                assert(a =~= seq![a[0]] + a.drop_first());
                assert(b =~= seq![b[0]] + b.drop_first());
                assert(a[0] == b[0]);
            }
        }
    } else if a.len() == 0 && b.len() == 0 {
        assert(a =~= b);
    }
}

pub proof fn lemma_seq_lt_asym(a: Seq<char>, b: Seq<char>)
    requires
        seq_lt(a, b),
    ensures
        !seq_lt(b, a),
{
    if seq_lt(b, a) {
        lemma_seq_lt_trans(a, b, a);
        lemma_seq_lt_irreflexive(a);
    }
}

/// Whether `a` sorts strictly before `b`.
pub fn str_lt(a: &str, b: &str) -> (r: bool)
    ensures
        r == seq_lt(a@, b@),
{
    let va = chars_of(a);
    let vb = chars_of(b);
    let mut i: usize = 0;
    assert(a@.skip(0) =~= a@);
    assert(b@.skip(0) =~= b@);
    while i < va.len() && i < vb.len() && va[i] == vb[i]
        invariant
            i <= va.len(),
            i <= vb.len(),
            va@ == a@,
            vb@ == b@,
            seq_lt(a@, b@) == seq_lt(a@.skip(i as int), b@.skip(i as int)),
        decreases va.len() - i,
    {
        proof {
            assert(a@.skip(i as int).drop_first() =~= a@.skip(i + 1));
            assert(b@.skip(i as int).drop_first() =~= b@.skip(i + 1));
            assert(a@.skip(i as int)[0] == va@[i as int]);
            assert(b@.skip(i as int)[0] == vb@[i as int]);
        }
        i = i + 1;
    }
    if i == va.len() {
        return i < vb.len();
    }
    if i == vb.len() {
        return false;
    }
    assert(a@.skip(i as int)[0] == va@[i as int]);
    assert(b@.skip(i as int)[0] == vb@[i as int]);
    va[i] < vb[i]
}

} // verus!
