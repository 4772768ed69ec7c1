use vstd::prelude::*;
use crate::protocol::{Error, IoErrorKind, Serializable, rest};
use crate::protocol::varint::{VarInt, overlong, varint_bytes};

verus! {

/// What flate2's `read::ZlibEncoder` at the default level produces from `data`.
pub uninterp spec fn zlib_deflate(data: Seq<u8>) -> Seq<u8>;

/// What flate2's `read::ZlibDecoder` gives back for `data`: the decompressed
/// bytes, or `None` where it reports an error.
pub uninterp spec fn zlib_inflate(data: Seq<u8>) -> Option<Seq<u8>>;

/// Compresses `data` with flate2's `read::ZlibEncoder` at the default level,
/// reading the whole output. Claims that the output is `zlib_deflate(data)`
/// and that flate2's decoder gives `data` back from it; `None` where flate2
/// reports an error.
#[verifier::external_body]
fn deflate(data: &[u8]) -> (out: Option<Vec<u8>>)
    ensures
        out matches Some(v) ==> v@ == zlib_deflate(data@),
        out matches Some(v) ==> zlib_inflate(v@) == Some(data@),
{
    let mut encoder = flate2::read::ZlibEncoder::new(data, flate2::Compression::default());
    let mut out = Vec::new();
    match std::io::Read::read_to_end(&mut encoder, &mut out) {
        Ok(_) => Some(out),
        Err(_) => None,
    }
}

/// Decompresses `data` with flate2's `read::ZlibDecoder`, reading the whole
/// output. Claims that the result is `zlib_inflate(data)`.
#[verifier::external_body]
fn inflate(data: &[u8]) -> (out: Option<Vec<u8>>)
    ensures
        out matches Some(v) ==> zlib_inflate(data@) == Some(v@),
        out is None ==> zlib_inflate(data@) is None,
{
    let mut decoder = flate2::read::ZlibDecoder::new(data);
    let mut out = Vec::new();
    match std::io::Read::read_to_end(&mut decoder, &mut out) {
        Ok(_) => Some(out),
        Err(_) => None,
    }
}

/// The bytes of a frame after its length: with compression on (threshold at
/// least zero), a body longer than the threshold is sent as its length and
/// its compressed bytes, a shorter one behind a zero length; with
/// compression off, the body as it is.
pub open spec fn frame_inner(body: Seq<u8>, threshold: i32) -> Seq<u8> {
    if threshold >= 0 && body.len() > threshold {
        varint_bytes(body.len() as u32) + zlib_deflate(body)
    } else if threshold >= 0 {
        seq![0u8] + body
    } else {
        body
    }
}

/// The body that the bytes of a frame after its length carry, or `None`
/// where they do not form one.
pub open spec fn frame_body(inner: Seq<u8>, threshold: i32) -> Option<Seq<u8>> {
    if threshold >= 0 {
        match <VarInt as Serializable>::spec_parse(inner) {
            None => None,
            Some((size, n)) => if size == 0 {
                Some(rest(inner, n as int))
            } else {
                zlib_inflate(rest(inner, n as int))
            },
        }
    } else {
        Some(inner)
    }
}

/// With compression on, the frame declares a negative uncompressed length.
pub open spec fn negative_size(inner: Seq<u8>, threshold: i32) -> bool {
    threshold >= 0 && match <VarInt as Serializable>::spec_parse(inner) {
        Some((size, _)) => size < 0,
        None => false,
    }
}

/// Frames a packet body (its id and fields) for sending: the length of what
/// follows, then `frame_inner`. Reading the frame back gives the body.
pub fn frame_packet(body: &[u8], compression_threshold: i32) -> (res: Result<Vec<u8>, Error>)
    requires
        body@.len() < i32::MAX,
    ensures
        res matches Ok(out) ==> out@ == varint_bytes((frame_inner(body@, compression_threshold).len() as i32) as u32)
            + frame_inner(body@, compression_threshold),
        res matches Ok(out) ==> frame_body(frame_inner(body@, compression_threshold), compression_threshold) == Some(body@),
        res is Err ==> compression_threshold >= 0 && body@.len() > compression_threshold,
{
    let mut buf: Vec<u8> = Vec::new();
    let mut extra: i32 = if compression_threshold >= 0 { 1 } else { 0 };
    if compression_threshold >= 0 && (body.len() as i32) > compression_threshold {
        extra = 0;
        let mut new: Vec<u8> = Vec::new();
        let _ = VarInt(body.len() as i32).write_to(&mut new);
        let compressed = match deflate(body) {
            Some(c) => c,
            None => return Err(Error::IOError(IoErrorKind::InvalidData)),
        };
        let ghost head = new@;
        let mut c = compressed;
        new.append(&mut c);
        buf = new;
        proof {
            assert(buf@ =~= frame_inner(body@, compression_threshold));
        }
    } else {
        let mut k: usize = 0;
        while k < body.len()
            invariant
                k <= body@.len(),
                buf@ == body@.subrange(0, k as int),
            decreases body@.len() - k,
        {
            buf.push(body[k]);
            proof {
                assert(body@.subrange(0, k + 1) =~= body@.subrange(0, k as int).push(body@[k as int]));
            }
            k = k + 1;
        }
        proof {
            assert(body@.subrange(0, body@.len() as int) =~= body@);
        }
    }
    let mut out: Vec<u8> = Vec::new();
    let total = (buf.len() as i32) + extra;
    let _ = VarInt(total).write_to(&mut out);
    if compression_threshold >= 0 && extra == 1 {
        let _ = VarInt(0).write_to(&mut out);
    }
    let ghost prefix = out@;
    out.append(&mut buf);
    proof {
        let inner = frame_inner(body@, compression_threshold);
        if compression_threshold >= 0 && body@.len() > compression_threshold {
            assert(out@ =~= varint_bytes((inner.len() as i32) as u32) + inner);
            <VarInt as Serializable>::lemma_round_trip(body@.len() as i32, zlib_deflate(body@));
            assert(varint_bytes((body@.len() as i32) as u32) == varint_bytes(body@.len() as u32));
            assert(rest(inner, varint_bytes(body@.len() as u32).len() as int) =~= zlib_deflate(body@));
        } else if compression_threshold >= 0 {
            crate::protocol::varint::lemma_shift_u32(0, 0);
            assert(varint_bytes(0u32) == seq![0u8]);
            assert(out@ =~= varint_bytes((inner.len() as i32) as u32) + inner);
            <VarInt as Serializable>::lemma_round_trip(0, body@);
            assert(rest(inner, 1) =~= body@);
        } else {
            assert(out@ =~= varint_bytes((inner.len() as i32) as u32) + inner);
        }
    }
    Ok(out)
}

/// Takes the body out of the bytes of a frame after its length (see
/// `frame_body`). A negative uncompressed length is a programming error.
pub fn unframe_packet(inner: &[u8], compression_threshold: i32) -> (res: Result<Vec<u8>, Error>)
    requires
        !negative_size(inner@, compression_threshold),
    ensures
        res matches Ok(b) ==> frame_body(inner@, compression_threshold) == Some(b@),
        res is Err ==> frame_body(inner@, compression_threshold) is None,
        res matches Err(e) ==> match <VarInt as Serializable>::spec_parse(inner@) {
            None => if overlong(inner@, 5) {
                e matches Error::Message(m) && m@ == "VarInt too big"@
            } else {
                e matches Error::IOError(IoErrorKind::UnexpectedEof)
            },
            Some(_) => e matches Error::IOError(IoErrorKind::InvalidData),
        },
{
    if compression_threshold >= 0 {
        proof {
            assert(rest(inner@, 0) =~= inner@);
        }
        let (size, pos) = match VarInt::read_from(inner, 0) {
            Ok(v) => v,
            Err(e) => return Err(e),
        };
        if size.0 != 0 {
            let mut tail: Vec<u8> = Vec::new();
            let mut k = pos;
            while k < inner.len()
                invariant
                    pos <= k <= inner@.len(),
                    tail@ == inner@.subrange(pos as int, k as int),
                decreases inner@.len() - k,
            {
                tail.push(inner[k]);
                proof {
                    assert(inner@.subrange(pos as int, k + 1) =~= inner@.subrange(pos as int, k as int).push(inner@[k as int]));
                }
                k = k + 1;
            }
            match inflate(tail.as_slice()) {
                Some(b) => Ok(b),
                None => Err(Error::IOError(IoErrorKind::InvalidData)),
            }
        } else {
            let mut b: Vec<u8> = Vec::new();
            let mut k = pos;
            while k < inner.len()
                invariant
                    pos <= k <= inner@.len(),
                    b@ == inner@.subrange(pos as int, k as int),
                decreases inner@.len() - k,
            {
                b.push(inner[k]);
                proof {
                    assert(inner@.subrange(pos as int, k + 1) =~= inner@.subrange(pos as int, k as int).push(inner@[k as int]));
                }
                k = k + 1;
            }
            Ok(b)
        }
    } else {
        let mut b: Vec<u8> = Vec::new();
        let mut k: usize = 0;
        while k < inner.len()
            invariant
                k <= inner@.len(),
                b@ == inner@.subrange(0, k as int),
            decreases inner@.len() - k,
        {
            b.push(inner[k]);
            proof {
                assert(inner@.subrange(0, k + 1) =~= inner@.subrange(0, k as int).push(inner@[k as int]));
            }
            k = k + 1;
        }
        proof {
            assert(inner@.subrange(0, inner@.len() as int) =~= inner@);
        }
        Ok(b)
    }
}

} // verus!
