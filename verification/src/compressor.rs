//! The symmetric compression codec that shrinks objects at rest. The
//! compressed form is opaque to the library: `zlib_of` names it, and the
//! one fact the contracts rely on is that decompression inverts it.

use crate::errors::ObjectError;
use flate2::read::ZlibDecoder;
use flate2::write::ZlibEncoder;
use std::io::{Read, Write};
use vstd::prelude::*;

verus! {

/// The zlib stream that compressing a byte sequence at the fixed default
/// level produces. A function of the bytes alone.
pub uninterp spec fn zlib_of(bytes: Seq<u8>) -> Seq<u8>;

pub struct Compressor {}

impl Compressor {
    /// Relies on `flate2::write::ZlibEncoder` at the default level: the
    /// output is determined by the input bytes alone, and writing into an
    /// in-memory vector never fails.
    #[verifier::external_body]
    pub(crate) fn compress(bytes: &[u8]) -> (r: Vec<u8>)
        ensures
            r@ == zlib_of(bytes@),
    {
        let mut encoder = ZlibEncoder::new(Vec::new(), flate2::Compression::default());
        encoder.write_all(bytes).expect("writing to a vector cannot fail");
        encoder.finish().expect("writing to a vector cannot fail")
    }

    /// Relies on `flate2::read::ZlibDecoder`: decompression is lossless, so
    /// on the exact stream that compression produced it recovers the bytes
    /// that went in; on input it rejects, the error is reported as corrupt
    /// data.
    #[verifier::external_body]
    pub(crate) fn decompress(bytes: &[u8]) -> (r: Result<Vec<u8>, ObjectError>)
        ensures
            forall|s: Seq<u8>| bytes@ == zlib_of(s) ==> r is Ok && r->Ok_0@ == s,
            r is Err ==> r->Err_0 == ObjectError::CorruptData,
    {
        let mut decoder = ZlibDecoder::new(bytes);
        let mut decompressed: Vec<u8> = Vec::new();
        match decoder.read_to_end(&mut decompressed) {
            Ok(_) => Ok(decompressed),
            Err(_) => Err(ObjectError::CorruptData),
        }
    }
}

} // verus!
