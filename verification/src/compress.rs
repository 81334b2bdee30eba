//! The compressed outer wrapping of a container stream: a DEFLATE-family
//! whole-stream codec with end of stream as the only boundary signal.

use vstd::prelude::*;
use std::io::Read;
use std::io::Write;

verus! {

/// The compressed form of a byte stream. With a fixed header (zero
/// timestamp, fixed operating-system byte) and the default level, the
/// output is a function of the input bytes alone; which bytes it holds is
/// left unstated.
pub uninterp spec fn gzip_of(bytes: Seq<u8>) -> Seq<u8>;

/// Relies on flate2::write::GzEncoder at the default compression level: its
/// default header carries a zero timestamp and a fixed operating-system
/// byte, so the compressed stream depends on the input bytes alone. Writing
/// into an in-memory buffer cannot fail.
#[verifier::external_body]
pub(crate) fn gzip_compress(data: &Vec<u8>) -> (r: Vec<u8>)
    ensures
        r@ == gzip_of(data@),
{
    let mut enc = flate2::write::GzEncoder::new(Vec::new(), flate2::Compression::default());
    enc.write_all(data.as_slice()).unwrap();
    enc.finish().unwrap()
}

/// Relies on flate2::read::GzDecoder: decompressing a stream the encoder
/// produced yields the original bytes exactly; a stream it cannot decode is
/// reported as a failure.
#[verifier::external_body]
pub(crate) fn gzip_decompress(data: &Vec<u8>) -> (r: Option<Vec<u8>>)
    ensures
        r matches Some(o) ==> forall|orig: Seq<u8>| data@ == gzip_of(orig) ==> o@ == orig,
        r is None ==> forall|orig: Seq<u8>| data@ != gzip_of(orig),
{
    let mut dec = flate2::read::GzDecoder::new(data.as_slice());
    let mut out = Vec::new();
    match dec.read_to_end(&mut out) {
        Ok(_) => Some(out),
        Err(_) => None,
    }
}

} // verus!
