//! The compression of a frame's payload.
use crate::error::{Error, Failure};
use flate2::read::GzDecoder;
use flate2::write::GzEncoder;
use flate2::Compression;
use std::io::{Read, Write};
use vstd::prelude::*;

verus! {

/// What compressing `data` gives: the gzip member, or the message of the error.
pub uninterp spec fn gzip_result(data: Seq<u8>) -> Result<Seq<u8>, Seq<char>>;

/// What decompressing `data` gives: the content of the gzip member that it
/// starts with, or the message of the error.
pub uninterp spec fn gunzip_result(data: Seq<u8>) -> Result<Seq<u8>, Seq<char>>;

/// An outcome as bytes and characters.
pub open spec fn outcome(r: Result<Vec<u8>, String>) -> Result<Seq<u8>, Seq<char>> {
    match r {
        Ok(data) => Ok(data@),
        Err(e) => Err(e@),
    }
}

/// `flate2::write::GzEncoder` at the fast level, writing to memory. The outcome
/// is the named one, the error told by its message. Memory takes whatever is
/// written to it, so none comes: what comes out is a member of a ten-byte header
/// that starts with the magic number, the deflated data and an eight-byte
/// trailer, and decompresses to what went in.
#[verifier::external_body]
fn encode(data: &[u8]) -> (r: Result<Vec<u8>, String>)
    ensures
        outcome(r) == gzip_result(data@),
        r is Ok,
        r matches Ok(z) ==> z@.len() >= 18 && z@[0] == 0x1f && z@[1] == 0x8b,
        r matches Ok(z) ==> gunzip_result(z@) is Ok
            && gunzip_result(z@)->Ok_0 == data@,
{
    let mut enc = GzEncoder::new(Vec::new(), Compression::fast());
    enc.write_all(data).and_then(|_| enc.finish()).map_err(|e| e.to_string())
}

/// `flate2::read::GzDecoder`, read to the end. The outcome is the named one,
/// the error told by its message.
#[verifier::external_body]
fn decode(data: &[u8]) -> (r: Result<Vec<u8>, String>)
    ensures
        outcome(r) == gunzip_result(data@),
{
    let mut out = Vec::new();
    GzDecoder::new(data).read_to_end(&mut out).map(|_| out).map_err(|e| e.to_string())
}

/// Compresses `data`, which always succeeds: the gzip member decompresses to
/// `data`.
pub fn gzip(data: &[u8]) -> (r: Result<Vec<u8>, Error>)
    ensures
        match gzip_result(data@) {
            Ok(z) => r matches Ok(out) && out@ == z,
            Err(t) => r matches Err(e) && e@ == Failure::Gzip(t),
        },
        r is Ok,
        r matches Ok(z) ==> z@.len() >= 18 && z@[0] == 0x1f && z@[1] == 0x8b,
        r matches Ok(z) ==> gunzip_result(z@) is Ok && gunzip_result(z@)->Ok_0 == data@,
{
    match encode(data) {
        Ok(z) => Ok(z),
        Err(t) => Err(Failure::Gzip(t)),
    }
}

/// Decompresses the gzip member that `data` starts with.
pub fn gunzip(data: &[u8]) -> (r: Result<Vec<u8>, Error>)
    ensures
        match gunzip_result(data@) {
            Ok(d) => r matches Ok(out) && out@ == d,
            Err(t) => r matches Err(e) && e@ == Failure::Gunzip(t),
        },
{
    match decode(data) {
        Ok(d) => Ok(d),
        Err(t) => Err(Failure::Gunzip(t)),
    }
}

} // verus!
