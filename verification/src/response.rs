//! Framing of TDX responses: the sixteen-byte header and the body, which the
//! server zlib-compresses when that makes it shorter.

use vstd::prelude::*;
use crate::protocol::{le_u16_at, read_u16_le};

verus! {

/// Why a response could not be turned into records.
#[derive(Clone, Copy, Debug, PartialEq, Eq, Structural)]
pub enum ProtocolError {
    /// The response is shorter than the fields it must start with.
    TooShort,
    /// The compressed body does not inflate to the size the header announces.
    Inflate,
    /// A price difference in the body does not fit in 64 bits.
    PriceOverflow,
}

/// Length of every response header.
pub const RESPONSE_HEADER_LEN: usize = 16;

/// The (compressed size, uncompressed size) pair of a response header: the
/// little-endian `u16`s at bytes 12 and 14.
pub fn response_body_sizes(header: &[u8]) -> (r: (u16, u16))
    requires
        header@.len() >= 16,
    ensures
        r.0 == le_u16_at(header@, 12),
        r.1 == le_u16_at(header@, 14),
{
    (read_u16_le(header, 12), read_u16_le(header, 14))
}

/// Name for what inflating `data` as a zlib stream and reading exactly `n`
/// bytes of the result gives, or `None` when that read fails.
pub uninterp spec fn zlib_inflated(data: Seq<u8>, n: nat) -> Option<Seq<u8>>;

/// Reads exactly `n` bytes out of a `flate2::read::ZlibDecoder` over `data`.
/// The contract names the outcome; on success the buffer it fills holds
/// exactly `n` bytes.
#[verifier::external_body]
fn inflate_exact(data: &[u8], n: u16) -> (r: Option<Vec<u8>>)
    ensures
        r is None <==> zlib_inflated(data@, n as nat) is None,
        r matches Some(v) ==> zlib_inflated(data@, n as nat) == Some(v@) && v@.len() == n,
{
    let mut decoder = flate2::read::ZlibDecoder::new(data);
    let mut out = vec![0u8; n as usize];
    match std::io::Read::read_exact(&mut decoder, &mut out) {
        Ok(()) => Some(out),
        Err(_) => None,
    }
}

/// The body of a response given its raw bytes and the two sizes of its header:
/// the bytes themselves when both sizes agree, otherwise their zlib inflation
/// to the uncompressed size.
pub open spec fn response_body(raw: Seq<u8>, zip_size: u16, unzip_size: u16) -> Result<
    Seq<u8>,
    ProtocolError,
> {
    if zip_size == unzip_size {
        Ok(raw)
    } else {
        match zlib_inflated(raw, unzip_size as nat) {
            Some(body) => Ok(body),
            None => Err(ProtocolError::Inflate),
        }
    }
}

/// Turns the raw body of a response into its payload, inflating it when the
/// header's two sizes differ.
pub fn decode_response_body(raw: Vec<u8>, zip_size: u16, unzip_size: u16) -> (r: Result<
    Vec<u8>,
    ProtocolError,
>)
    ensures
        match r {
            Ok(body) => response_body(raw@, zip_size, unzip_size) == Ok::<Seq<u8>, ProtocolError>(
                body@,
            ),
            Err(e) => response_body(raw@, zip_size, unzip_size) == Err::<Seq<u8>, ProtocolError>(
                e,
            ),
        },
        zip_size != unzip_size ==> (r matches Ok(body) ==> body@.len() == unzip_size),
        zip_size == unzip_size ==> (r matches Ok(body) && body@ == raw@),
        zip_size != unzip_size ==> (r is Err <==> zlib_inflated(raw@, unzip_size as nat) is None),
{
    if zip_size != unzip_size {
        match inflate_exact(raw.as_slice(), unzip_size) {
            Some(body) => Ok(body),
            None => Err(ProtocolError::Inflate),
        }
    } else {
        Ok(raw)
    }
}

} // verus!
