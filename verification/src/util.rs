//! Small shared helpers: the canonical lowercase-hex encoding of bytes and the
//! SHA-256 digest that names content throughout the crate.

use vstd::prelude::*;
use sha2::Digest;
use crate::json::hex_digit;
use crate::text::push_char;

verus! {

/// Lowercase hex encoding of bytes: two digits per byte, high nibble first.
pub open spec fn hex_spec(bytes: Seq<u8>) -> Seq<char>
    decreases bytes.len(),
{
    if bytes.len() == 0 {
        Seq::empty()
    } else {
        hex_spec(bytes.drop_last()) + seq![
            hex_digit((bytes.last() as int) / 16),
            hex_digit((bytes.last() as int) % 16),
        ]
    }
}

/// The SHA-256 digest of `data`.
pub uninterp spec fn sha256_spec(data: Seq<u8>) -> Seq<u8>;

/// `sha2::Sha256::digest` over `data`: the 32-byte SHA-256 digest, named by
/// [`sha256_spec`]. Nothing else of the hash function is claimed.
#[verifier::external_body]
pub(crate) fn sha256_digest(data: &[u8]) -> (r: Vec<u8>)
    ensures
        r@ == sha256_spec(data@),
        r@.len() == 32,
{
    sha2::Sha256::digest(data).to_vec()
}

/// The lowercase hex digit of a nibble.
fn nibble_char(d: u8) -> (c: char)
    requires
        d < 16,
    ensures
        c == hex_digit(d as int),
{
    match d {
        0 => '0',
        1 => '1',
        2 => '2',
        3 => '3',
        4 => '4',
        5 => '5',
        6 => '6',
        7 => '7',
        8 => '8',
        9 => '9',
        10 => 'a',
        11 => 'b',
        12 => 'c',
        13 => 'd',
        14 => 'e',
        _ => 'f',
    }
}

/// Lowercase hex encoding of a byte slice (`{b:02x}` per byte). The canonical
/// content-hash encoding: artifact content hashes and backup object names both
/// name bytes by `hex(sha256(bytes))`.
pub fn hex(bytes: &[u8]) -> (s: String)
    ensures
        s@ == hex_spec(bytes@),
{
    let mut s = String::new();
    let mut i: usize = 0;
    while i < bytes.len()
        invariant
            i <= bytes.len(),
            s@ == hex_spec(bytes@.take(i as int)),
        decreases bytes.len() - i,
    {
        let b = bytes[i];
        push_char(&mut s, nibble_char(b / 16));
        push_char(&mut s, nibble_char(b % 16));
        proof {
            assert(bytes@.take(i + 1).drop_last() =~= bytes@.take(i as int));
            assert(s@ =~= hex_spec(bytes@.take(i + 1)));
        }
        i = i + 1;
    }
    assert(bytes@.take(bytes.len() as int) =~= bytes@);
    s
}

/// The hex SHA-256 of `data`: the name the crate gives content.
pub fn sha256_hex(data: &[u8]) -> (s: String)
    ensures
        s@ == hex_spec(sha256_spec(data@)),
{
    let d = sha256_digest(data);
    hex(d.as_slice())
}

} // verus!
