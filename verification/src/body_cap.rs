//! Body size caps: a declared `Content-Length` above the cap is refused
//! before reading, and a running total of what was actually read (after
//! decompression) is refused as soon as it passes the cap. The gzip
//! decompression of sitemaps is capped on the decompressed byte count.

use vstd::prelude::*;
use vstd::string::*;
use crate::error::HttpError;

verus! {

/// The stage-one check: a declared length above the cap is refused.
pub fn check_declared_length(content_length: Option<u64>, max_bytes: u64) -> (r: Result<(), HttpError>)
    ensures
        match content_length {
            Some(cl) => if cl > max_bytes {
                r matches Err(HttpError::BodyTooLarge { limit, observed }) && limit == max_bytes
                    && observed == cl
            } else {
                r is Ok
            },
            None => r is Ok,
        },
{
    match content_length {
        Some(cl) => if cl > max_bytes {
            Err(HttpError::BodyTooLarge { limit: max_bytes, observed: cl })
        } else {
            Ok(())
        },
        None => Ok(()),
    }
}

/// The stage-two step: adds a chunk to the (saturating) running total and
/// refuses the body once the total passes the cap.
pub fn add_chunk(total: u64, chunk_len: usize, max_bytes: u64) -> (r: Result<u64, HttpError>)
    ensures
        ({
            let t = if total + chunk_len > u64::MAX {
                u64::MAX as int
            } else {
                total + chunk_len
            };
            if t > max_bytes {
                r matches Err(HttpError::BodyTooLarge { limit, observed }) && limit == max_bytes
                    && observed == t
            } else {
                r == Ok::<u64, HttpError>(t as u64)
            }
        }),
{
    let c: u64 = chunk_len as u64;
    let t = total.saturating_add(c);
    if t > max_bytes {
        Err(HttpError::BodyTooLarge { limit: max_bytes, observed: t })
    } else {
        Ok(t)
    }
}

#[verifier::external_type_specification]
#[verifier::external_body]
#[verifier::reject_recursive_types(R)]
pub struct ExGzDecoder<R>(flate2::read::GzDecoder<R>);

/// The bytes that gzip decompression of `input` yields, read in
/// `GUNZIP_CHUNK`-byte buffers, before the stream ends or fails: a value fixed
/// by the compressed bytes alone.
pub uninterp spec fn gunzip_output(input: Seq<u8>) -> Seq<u8>;

/// Whether decompression of `input` ends in an error (a corrupt or truncated
/// stream) rather than at the end of the data.
pub uninterp spec fn gunzip_fails(input: Seq<u8>) -> bool;

/// What a decoder still holds: the bytes its next reads yield before the
/// stream ends or fails.
pub uninterp spec fn gz_rest(d: flate2::read::GzDecoder<&[u8]>) -> Seq<u8>;

/// Whether the decoder's stream ends in an error once `gz_rest` is read.
pub uninterp spec fn gz_ends_in_error(d: flate2::read::GzDecoder<&[u8]>) -> bool;

/// Calls `flate2::read::GzDecoder::new` on the compressed bytes: the new
/// decoder holds the whole decompressed output of `input`.
#[verifier::external_body]
fn gz_decoder(input: &[u8]) -> (d: flate2::read::GzDecoder<&[u8]>)
    ensures
        gz_rest(d) == gunzip_output(input@),
        gz_ends_in_error(d) == gunzip_fails(input@),
{
    flate2::read::GzDecoder::new(input)
}

/// The size of the buffer decompression reads into.
pub const GUNZIP_CHUNK: usize = 8192;

/// Calls `Read::read` on the decoder. `Ok(n)` with `n > 0` puts the next `n`
/// bytes the decoder holds at the start of `buf` (at most a buffer's worth);
/// `Ok(0)` is the end of a stream that decoded cleanly; an error (its
/// message) comes once everything before it was read, and no bytes are read
/// with it.
#[verifier::external_body]
fn gz_read(decoder: &mut flate2::read::GzDecoder<&[u8]>, buf: &mut [u8; 8192]) -> (r: Result<usize, String>)
    ensures
        match r {
            Ok(n) => {
                &&& n <= GUNZIP_CHUNK
                &&& n <= gz_rest(*old(decoder)).len()
                &&& final(buf)@.take(n as int) == gz_rest(*old(decoder)).take(n as int)
                &&& gz_rest(*final(decoder)) == gz_rest(*old(decoder)).skip(n as int)
                &&& gz_ends_in_error(*final(decoder)) == gz_ends_in_error(*old(decoder))
                &&& (n == 0 ==> gz_rest(*old(decoder)).len() == 0 && !gz_ends_in_error(*old(decoder)))
            },
            Err(_) => gz_rest(*old(decoder)).len() == 0 && gz_ends_in_error(*old(decoder)),
        },
{
    std::io::Read::read(decoder, &mut buf[..]).map_err(|e| e.to_string())
}

/// Decompresses gzip data, refusing output of more than `max_bytes` bytes:
/// the cap applies to the decompressed size, which is what a decompression
/// bomb inflates. The output is returned when it fits and the stream is
/// sound; a larger output is refused as soon as the running total passes the
/// cap; a corrupt stream that stays within the cap is a decode error.
pub fn gunzip_capped(input: &[u8], max_bytes: u64) -> (r: Result<Vec<u8>, HttpError>)
    ensures
        r matches Ok(v) ==> v@.len() <= max_bytes,
        r matches Err(e) ==> match e {
            HttpError::BodyTooLarge { limit, observed } => limit == max_bytes && (observed > max_bytes
                || observed == u64::MAX),
            HttpError::BodyDecodeError(_) => true,
            _ => false,
        },
        r is Ok <==> gunzip_output(input@).len() <= max_bytes && !gunzip_fails(input@),
        r matches Ok(v) ==> v@ == gunzip_output(input@),
        r matches Err(HttpError::BodyTooLarge { observed, .. }) ==> gunzip_output(input@).len() > max_bytes
            && (observed <= gunzip_output(input@).len() || observed == u64::MAX),
        r matches Err(HttpError::BodyDecodeError(_)) ==> gunzip_fails(input@)
            && gunzip_output(input@).len() <= max_bytes,
{
    let mut decoder = gz_decoder(input);
    let mut out: Vec<u8> = Vec::new();
    let mut tmp = [0u8; 8192];
    let mut total: u64 = 0;
    let ghost whole = gunzip_output(input@);
    loop
        invariant
            total == out@.len(),
            total <= max_bytes,
            out@ + gz_rest(decoder) == whole,
            whole == gunzip_output(input@),
            gz_ends_in_error(decoder) == gunzip_fails(input@),
        decreases max_bytes - total,
    {
        let ghost rest0 = gz_rest(decoder);
        let n = match gz_read(&mut decoder, &mut tmp) {
            Ok(n) => n,
            Err(msg) => {
                assert(out@ =~= whole);
                let mut m = String::from_str("gzip decompression failed: ");
                m.append(msg.as_str());
                return Err(HttpError::BodyDecodeError(m));
            },
        };
        if n == 0 {
            assert(out@ =~= whole);
            return Ok(out);
        }
        assert(whole.len() == out@.len() + rest0.len());
        let t = match total.checked_add(n as u64) {
            Some(t) => t,
            None => return Err(HttpError::BodyTooLarge { limit: max_bytes, observed: u64::MAX }),
        };
        if t > max_bytes {
            return Err(HttpError::BodyTooLarge { limit: max_bytes, observed: t });
        }
        let mut k: usize = 0;
        let ghost o0 = out@;
        while k < n
            invariant
                k <= n <= GUNZIP_CHUNK,
                n <= rest0.len(),
                out@ == o0 + rest0.take(k as int),
                tmp@.take(n as int) == rest0.take(n as int),
            decreases n - k,
        {
            assert(tmp@[k as int] == tmp@.take(n as int)[k as int]);
            out.push(tmp[k]);
            assert(rest0.take(k + 1) =~= rest0.take(k as int).push(rest0[k as int]));
            k += 1;
        }
        assert(o0 + rest0.take(n as int) + rest0.skip(n as int) =~= o0 + rest0);
        total = t;
    }
}

} // verus!
