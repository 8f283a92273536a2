//! Embedded corpus blobs: brotli decompression, and the layout of the
//! combined corpus blob.
//!
//! The combined blob starts with an 8-byte header of two little-endian
//! `u32`s, the lengths of the horas postcard and of the missa postcard,
//! followed by the horas bytes and then the missa bytes.

use std::io::Read;
use vstd::prelude::*;

verus! {

/// What brotli decoding of `compressed` yields: the decompressed bytes,
/// or `None` when the stream is malformed.
pub uninterp spec fn brotli_decoded(compressed: Seq<u8>) -> Option<Seq<u8>>;

/// Decompresses a brotli stream with `brotli_decompressor`
/// (`Decompressor::new` over the bytes, then `Read::read_to_end`).
/// The contract only ties the outcome to `brotli_decoded` of the input:
/// what decoding yields is not stated, being the brotli format itself.
#[verifier::external_body]
fn brotli_decode(compressed: &[u8]) -> (r: Option<Vec<u8>>)
    ensures
        match r {
            Some(v) => brotli_decoded(compressed@) == Some(v@),
            None => brotli_decoded(compressed@) is None,
        },
{
    let mut decoder = brotli_decompressor::Decompressor::new(compressed, 4096);
    let mut out = Vec::new();
    match decoder.read_to_end(&mut out) {
        Ok(_) => Some(out),
        Err(_) => None,
    }
}

/// Brotli-decompresses a well-formed embedded blob.
pub fn decompress(compressed: &[u8]) -> (r: Vec<u8>)
    requires
        brotli_decoded(compressed@) is Some,
    ensures
        brotli_decoded(compressed@) == Some(r@),
{
    match brotli_decode(compressed) {
        Some(v) => v,
        None => {
            proof {
                assert(false);
            }
            Vec::new()
        },
    }
}

/// Brotli-decompresses `compressed`, or `None` when it is not a
/// well-formed brotli stream.
pub fn try_decompress(compressed: &[u8]) -> (r: Option<Vec<u8>>)
    ensures
        match r {
            Some(v) => brotli_decoded(compressed@) == Some(v@),
            None => brotli_decoded(compressed@) is None,
        },
{
    match brotli_decode(compressed) {
        Some(_) => Some(decompress(compressed)),
        None => None,
    }
}

/// The little-endian `u32` stored at `b[at..at + 4]`.
pub open spec fn le_u32(b: Seq<u8>, at: int) -> int {
    b[at] + 256 * b[at + 1] + 65536 * b[at + 2] + 16777216 * b[at + 3]
}

/// Length of the horas postcard, from the blob's header.
pub open spec fn horas_len(blob: Seq<u8>) -> int {
    le_u32(blob, 0)
}

/// Length of the missa postcard, from the blob's header.
pub open spec fn missa_len(blob: Seq<u8>) -> int {
    le_u32(blob, 4)
}

/// A blob whose header lengths fit within it.
pub open spec fn blob_well_formed(blob: Seq<u8>) -> bool {
    blob.len() >= 8 && 8 + horas_len(blob) + missa_len(blob) <= blob.len()
}

fn read_le_u32(b: &[u8], at: usize) -> (r: usize)
    requires
        at + 4 <= b@.len(),
    ensures
        r == le_u32(b@, at as int),
{
    let v: u64 = b[at] as u64 + 256 * (b[at + 1] as u64) + 65536 * (b[at + 2] as u64)
        + 16777216 * (b[at + 3] as u64);
    v as usize
}

/// The horas postcard inside a combined corpus blob.
pub fn horas_postcard(blob: &[u8]) -> (r: &[u8])
    requires
        blob_well_formed(blob@),
    ensures
        r@ == blob@.subrange(8, 8 + horas_len(blob@)),
{
    let n = blob.len();
    let h = read_le_u32(blob, 0);
    assert(8 + h <= n);
    &blob[8..8 + h]
}

/// The missa postcard inside a combined corpus blob.
pub fn missa_postcard(blob: &[u8]) -> (r: &[u8])
    requires
        blob_well_formed(blob@),
    ensures
        r@ == blob@.subrange(8 + horas_len(blob@), 8 + horas_len(blob@) + missa_len(blob@)),
{
    let n = blob.len();
    let h = read_le_u32(blob, 0);
    let m = read_le_u32(blob, 4);
    assert(8 + h + m <= n);
    let start = 8 + h;
    &blob[start..start + m]
}

fn copy_bytes(s: &[u8]) -> (r: Vec<u8>)
    ensures
        r@ == s@,
{
    let mut r: Vec<u8> = Vec::new();
    let mut i: usize = 0;
    while i < s.len()
        invariant
            i <= s@.len(),
            r@ == s@.subrange(0, i as int),
        decreases s.len() - i,
    {
        r.push(s[i]);
        i = i + 1;
        assert(r@ =~= s@.subrange(0, i as int));
    }
    assert(r@ =~= s@);
    r
}

/// Splits a combined corpus blob into its horas and missa postcards, or
/// `None` when the header's lengths do not fit the blob.
pub fn split_corpus_blob(blob: &[u8]) -> (r: Option<(Vec<u8>, Vec<u8>)>)
    ensures
        match r {
            Some((h, m)) => blob_well_formed(blob@)
                && h@ == blob@.subrange(8, 8 + horas_len(blob@))
                && m@ == blob@.subrange(8 + horas_len(blob@), 8 + horas_len(blob@) + missa_len(blob@)),
            None => !blob_well_formed(blob@),
        },
{
    if blob.len() < 8 {
        return None;
    }
    let h = read_le_u32(blob, 0);
    let m = read_le_u32(blob, 4);
    if h > blob.len() - 8 || m > blob.len() - 8 - h {
        return None;
    }
    let hs = horas_postcard(blob);
    let ms = missa_postcard(blob);
    Some((copy_bytes(hs), copy_bytes(ms)))
}

} // verus!
