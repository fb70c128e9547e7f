//! The encodings in which the body of a response can be sent.

use crate::text::copy_bytes;
use brotli2::read::BrotliEncoder;
use std::io::{Read, Write};
use vstd::prelude::*;

verus! {

/// An encoding of the body of a response.
#[derive(Debug, Copy, Clone, PartialEq, Eq, Structural)]
pub enum Compression {
    /// The gzip format.
    Gzip,
    /// A raw DEFLATE stream.
    Deflate,
    /// The Brotli format.
    Brotli,
    /// The Zstandard format.
    Zstd,
    /// The bytes as they are.
    Identity,
}

/// What `libflate::deflate::Encoder` makes of bytes, if it succeeds.
pub uninterp spec fn deflated(bytes: Seq<u8>) -> Option<Seq<u8>>;

/// What `brotli2::read::BrotliEncoder` makes of bytes at level 6, if it
/// succeeds.
pub uninterp spec fn brotli_packed(bytes: Seq<u8>) -> Option<Seq<u8>>;

/// What `zstd::stream::encode_all` makes of bytes at level 3, if it
/// succeeds.
pub uninterp spec fn zstd_packed(bytes: Seq<u8>) -> Option<Seq<u8>>;

/// `libflate::gzip::Encoder`: the bytes in the gzip format. Not verified,
/// and nothing is claimed of the result: the header that the encoder writes
/// holds the time of the call.
#[verifier::external_body]
fn gzip(bytes: &[u8]) -> (packed: Option<Vec<u8>>) {
    let mut encoder = libflate::gzip::Encoder::new(Vec::new()).ok()?;
    encoder.write_all(bytes).ok()?;
    encoder.finish().into_result().ok()
}

/// `libflate::deflate::Encoder`: the bytes as a DEFLATE stream. Not
/// verified: the stream is a function of the bytes, and the contract only
/// gives it a name.
#[verifier::external_body]
fn deflate(bytes: &[u8]) -> (packed: Option<Vec<u8>>)
    ensures
        match deflated(bytes@) {
            Some(b) => packed matches Some(v) && v@ == b,
            None => packed is None,
        },
{
    let mut encoder = libflate::deflate::Encoder::new(Vec::new());
    encoder.write_all(bytes).ok()?;
    encoder.finish().into_result().ok()
}

/// `brotli2::read::BrotliEncoder` at level 6, read to its end. Not
/// verified: what is read is a function of the bytes, and the contract only
/// gives it a name.
#[verifier::external_body]
fn brotli(bytes: &[u8]) -> (packed: Option<Vec<u8>>)
    ensures
        match brotli_packed(bytes@) {
            Some(b) => packed matches Some(v) && v@ == b,
            None => packed is None,
        },
{
    let mut packed = Vec::new();
    BrotliEncoder::new(bytes, 6).read_to_end(&mut packed).ok()?;
    Some(packed)
}

/// `zstd::stream::encode_all` at level 3. Not verified: the frame is a
/// function of the bytes, and the contract only gives it a name.
#[verifier::external_body]
fn zstd_frame(bytes: &[u8]) -> (packed: Option<Vec<u8>>)
    ensures
        match zstd_packed(bytes@) {
            Some(b) => packed matches Some(v) && v@ == b,
            None => packed is None,
        },
{
    zstd::stream::encode_all(bytes, 3).ok()
}

impl Compression {
    /// The name of this encoding in a `Content-Encoding` header; none for
    /// the bytes as they are.
    pub open spec fn token(self) -> Option<Seq<char>> {
        match self {
            Compression::Gzip => Some("gzip"@),
            Compression::Deflate => Some("deflate"@),
            Compression::Brotli => Some("br"@),
            Compression::Zstd => Some("zstd"@),
            Compression::Identity => None,
        }
    }

    /// Executable `token`.
    pub fn name(self) -> (name: Option<&'static str>)
        ensures
            match self.token() {
                Some(text) => name matches Some(n) && n@ == text,
                None => name is None,
            },
    {
        match self {
            Compression::Gzip => Some("gzip"),
            Compression::Deflate => Some("deflate"),
            Compression::Brotli => Some("br"),
            Compression::Zstd => Some("zstd"),
            Compression::Identity => None,
        }
    }

    /// What this encoding makes of bytes, where that is a function of the
    /// bytes: `Some(None)` where the encoder fails, and `None` for gzip,
    /// whose output holds the time at which it was made.
    pub open spec fn packed(self, bytes: Seq<u8>) -> Option<Option<Seq<u8>>> {
        match self {
            Compression::Gzip => None,
            Compression::Deflate => Some(deflated(bytes)),
            Compression::Brotli => Some(brotli_packed(bytes)),
            Compression::Zstd => Some(zstd_packed(bytes)),
            Compression::Identity => Some(Some(bytes)),
        }
    }

    /// The bytes in this encoding; `None` where the encoder fails.
    pub fn compress(self, bytes: &[u8]) -> (packed: Option<Vec<u8>>)
        ensures
            match self.packed(bytes@) {
                Some(Some(b)) => packed matches Some(v) && v@ == b,
                Some(None) => packed is None,
                None => true,
            },
    {
        match self {
            Compression::Gzip => gzip(bytes),
            Compression::Deflate => deflate(bytes),
            Compression::Brotli => brotli(bytes),
            Compression::Zstd => zstd_frame(bytes),
            Compression::Identity => {
                let copy = copy_bytes(bytes, 0, bytes.len());
                assert(copy@ =~= bytes@);
                Some(copy)
            },
        }
    }
}

} // verus!
