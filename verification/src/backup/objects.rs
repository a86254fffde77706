//! The content-addressed objects of the backup store: each unique file's bytes
//! gzip-compressed and named by the SHA-256 (lowercase hex) of the uncompressed
//! content. The library hashes and (de)compresses; an object is intact exactly
//! when its decompressed bytes hash to its name.

use vstd::prelude::*;
use std::io::{Read, Write};
use sha2::Digest;
use crate::text::str_eq;
use crate::util::{hex, hex_spec, sha256_spec};

verus! {

/// The running state of a `sha2::Sha256`, held opaquely: Verus refuses to
/// declare `sha2::Sha256` itself (a type alias over generic digest cores).
#[verifier::external_body]
pub struct Sha256Core {
    inner: sha2::Sha256,
}

/// `sha2::Sha256::new`: a hasher that has been fed nothing.
#[verifier::external_body]
fn sha256_new() -> Sha256Core {
    Sha256Core { inner: sha2::Sha256::new() }
}

/// A SHA-256 over bytes fed in chunks, with the bytes fed so far.
pub struct Sha256Stream {
    core: Sha256Core,
    fed: Ghost<Seq<u8>>,
}

impl Sha256Stream {
    /// The bytes fed so far.
    pub closed spec fn fed(&self) -> Seq<u8> {
        self.fed@
    }

    /// A stream that has been fed nothing.
    pub fn new() -> (r: Sha256Stream)
        ensures
            r.fed() == Seq::<u8>::empty(),
    {
        Sha256Stream { core: sha256_new(), fed: Ghost(Seq::empty()) }
    }

    /// `Digest::update`: feed the next chunk.
    #[verifier::external_body]
    pub fn update(&mut self, chunk: &[u8])
        ensures
            final(self).fed() == old(self).fed() + chunk@,
    {
        self.core.inner.update(chunk);
    }

    /// `Digest::finalize`: the 32-byte digest of everything fed, named by
    /// [`sha256_spec`], the same name as a one-shot digest of those bytes.
    #[verifier::external_body]
    pub fn finish(self) -> (r: Vec<u8>)
        ensures
            r@ == sha256_spec(self.fed()),
    {
        self.core.inner.finalize().to_vec()
    }
}

/// A content hash over bytes fed in chunks: their SHA-256 and their count.
pub struct ContentHasher {
    stream: Sha256Stream,
    len: u64,
}

impl ContentHasher {
    /// The bytes fed so far.
    pub closed spec fn fed(&self) -> Seq<u8> {
        self.stream.fed()
    }

    /// The count of bytes fed so far, as kept.
    pub closed spec fn count(&self) -> u64 {
        self.len
    }

    /// Whether the kept count is the number of bytes fed.
    pub closed spec fn consistent(&self) -> bool {
        self.len as int == self.stream.fed().len()
    }

    /// A hasher that has been fed nothing.
    pub fn new() -> (r: ContentHasher)
        ensures
            r.fed() == Seq::<u8>::empty(),
            r.count() == 0,
            r.consistent(),
    {
        ContentHasher { stream: Sha256Stream::new(), len: 0 }
    }

    /// The count of bytes fed so far.
    pub fn fed_len(&self) -> (r: u64)
        ensures
            r == self.count(),
    {
        self.len
    }

    /// Feed the next chunk.
    pub fn feed(&mut self, chunk: &[u8])
        requires
            old(self).count() + chunk@.len() <= u64::MAX,
        ensures
            final(self).fed() == old(self).fed() + chunk@,
            final(self).count() == old(self).count() + chunk@.len(),
            old(self).consistent() ==> final(self).consistent(),
    {
        self.stream.update(chunk);
        self.len = self.len + chunk.len() as u64;
    }

    /// The lowercase-hex SHA-256 of everything fed, and the count of bytes fed.
    pub fn finish(self) -> (r: (String, u64))
        ensures
            r.0@ == hex_spec(sha256_spec(self.fed())),
            r.1 == self.count(),
            self.consistent() ==> r.1 as int == self.fed().len(),
    {
        let len = self.len;
        let digest = self.stream.finish();
        (hex(digest.as_slice()), len)
    }
}

/// What `flate2::read::GzDecoder` yields reading all of `data`: the
/// decompressed bytes, or none when `data` is not a whole gzip stream.
pub uninterp spec fn gunzip_spec(data: Seq<u8>) -> Option<Seq<u8>>;

/// What `flate2::write::GzEncoder` at `Compression::fast()` writes for `data`.
pub uninterp spec fn gzip_spec(data: Seq<u8>) -> Seq<u8>;

/// Decompress a whole gzip stream with `flate2::read::GzDecoder`; none when it
/// fails to decompress. The result is named by [`gunzip_spec`].
#[verifier::external_body]
pub fn gunzip(data: &[u8]) -> (r: Option<Vec<u8>>)
    ensures
        (match r {
            Some(v) => Some(v@),
            None => None,
        }) == gunzip_spec(data@),
{
    let mut out = Vec::new();
    match flate2::read::GzDecoder::new(data).read_to_end(&mut out) {
        Ok(_) => Some(out),
        Err(_) => None,
    }
}

/// Compress with `flate2::write::GzEncoder` at `Compression::fast()` into
/// memory, named by [`gzip_spec`]; decompressing what it writes gives the
/// input back (the encoder's and decoder's documented purpose).
#[verifier::external_body]
pub fn gzip_fast(data: &[u8]) -> (r: Vec<u8>)
    ensures
        r@ == gzip_spec(data@),
        gunzip_spec(r@) == Some(data@),
{
    let mut enc = flate2::write::GzEncoder::new(Vec::new(), flate2::Compression::fast());
    match enc.write_all(data) {
        Ok(()) => {},
        Err(_) => {},
    }
    match enc.finish() {
        Ok(v) => v,
        Err(_) => Vec::new(),
    }
}

/// Whether a stored object named `sha` is intact: its bytes decompress, and
/// the SHA-256 (lowercase hex) of what they decompress to is its name.
pub open spec fn intact_spec(sha: Seq<char>, compressed: Seq<u8>) -> bool {
    match gunzip_spec(compressed) {
        Some(c) => hex_spec(sha256_spec(c)) == sha,
        None => false,
    }
}

/// Check a stored object against its name.
pub fn object_intact(sha: &str, compressed: &[u8]) -> (r: bool)
    ensures
        r == intact_spec(sha@, compressed@),
{
    match gunzip(compressed) {
        Some(content) => {
            let digest = crate::util::sha256_hex(content.as_slice());
            str_eq(digest.as_str(), sha)
        },
        None => false,
    }
}

/// The object a file's content is stored as: its name (the lowercase-hex
/// SHA-256 of the content), the content's size, and the compressed bytes. The
/// object verifies as intact under its name and unpacks to the content.
pub fn pack_object(content: &[u8]) -> (r: (String, u64, Vec<u8>))
    ensures
        r.0@ == hex_spec(sha256_spec(content@)),
        r.1 as int == content@.len(),
        r.2@ == gzip_spec(content@),
        intact_spec(r.0@, r.2@),
        gunzip_spec(r.2@) == Some(content@),
{
    let name = crate::util::sha256_hex(content);
    let packed = gzip_fast(content);
    (name, content.len() as u64, packed)
}

/// Recover a stored object's content; none when it does not decompress.
pub fn unpack_object(compressed: &[u8]) -> (r: Option<Vec<u8>>)
    ensures
        (match r {
            Some(v) => Some(v@),
            None => None,
        }) == gunzip_spec(compressed@),
{
    gunzip(compressed)
}

} // verus!
