//! Length-prefixed frames: four bytes of big-endian length, then the body.
use vstd::prelude::*;

use crate::cbor::codec::{
    cbor_decoded, cbor_depth, cbor_encodable, cbor_encoded, decode_cbor, encode_cbor, holds_bignum_tag,
};
use crate::cbor::{Cbor, CborValue};

verus! {

/// The largest body a frame that is read may announce.
pub const MAX_FRAME: usize = 16777216;

/// Why a frame could not be made or taken apart.
#[derive(PartialEq, Eq, Structural, Debug, Clone, Copy)]
pub enum FrameError {
    /// The body is longer than a `u32` can count.
    BodyTooLong,
    /// The length read announces more than `MAX_FRAME` bytes.
    FrameTooLarge(u32),
    /// The bytes end before the frame does.
    Truncated,
    /// The item to send cannot be written as CBOR.
    NotEncodable,
    /// The body is no CBOR item.
    NotCbor,
}

/// The four big-endian bytes of `n`.
pub open spec fn be32(n: u32) -> Seq<u8> {
    seq![(n >> 24u32) as u8, (n >> 16u32) as u8, (n >> 8u32) as u8, n as u8]
}

/// The number that four big-endian bytes spell.
pub open spec fn from_be32(b0: u8, b1: u8, b2: u8, b3: u8) -> u32 {
    ((b0 as u32) << 24u32) | ((b1 as u32) << 16u32) | ((b2 as u32) << 8u32) | (b3 as u32)
}

/// The frame that carries `body`.
pub open spec fn spec_frame(body: Seq<u8>) -> Seq<u8> {
    be32(body.len() as u32) + body
}

/// What reading one frame from the start of `bytes` gives: the body and the
/// number of bytes the frame took.
pub open spec fn spec_read_frame(bytes: Seq<u8>) -> Result<(Seq<u8>, int), FrameError> {
    if bytes.len() < 4 {
        Err(FrameError::Truncated)
    } else {
        let n = from_be32(bytes[0], bytes[1], bytes[2], bytes[3]);
        if n > MAX_FRAME {
            Err(FrameError::FrameTooLarge(n))
        } else if bytes.len() < 4 + n {
            Err(FrameError::Truncated)
        } else {
            Ok((bytes.subrange(4, 4 + n), 4 + n))
        }
    }
}

pub proof fn lemma_be32_roundtrip(n: u32)
    ensures
        from_be32(be32(n)[0], be32(n)[1], be32(n)[2], be32(n)[3]) == n,
{
    let b0 = (n >> 24u32) as u8;
    let b1 = (n >> 16u32) as u8;
    let b2 = (n >> 8u32) as u8;
    let b3 = n as u8;
    assert(((b0 as u32) << 24u32) | ((b1 as u32) << 16u32) | ((b2 as u32) << 8u32) | (b3 as u32)
        == n) by (bit_vector)
        requires
            b0 == (n >> 24u32) as u8,
            b1 == (n >> 16u32) as u8,
            b2 == (n >> 8u32) as u8,
            b3 == n as u8,
    ;
}

/// The body length that a frame header announces, refused beyond `MAX_FRAME`.
pub fn frame_body_len(header: [u8; 4]) -> (res: Result<usize, FrameError>)
    ensures
        match res {
            Ok(n) => n as int == from_be32(header[0], header[1], header[2], header[3]) && n
                <= MAX_FRAME,
            Err(e) => from_be32(header[0], header[1], header[2], header[3]) > MAX_FRAME && e
                == FrameError::FrameTooLarge(from_be32(header[0], header[1], header[2], header[3])),
        },
{
    let n: u32 = ((header[0] as u32) << 24u32) | ((header[1] as u32) << 16u32) | ((
    header[2] as u32) << 8u32) | (header[3] as u32);
    if n as usize > MAX_FRAME {
        Err(FrameError::FrameTooLarge(n))
    } else {
        Ok(n as usize)
    }
}

/// The frame that carries `body`: its length as four big-endian bytes, then
/// the body. A body longer than `u32::MAX` cannot be framed.
pub fn encode_frame(body: &[u8]) -> (res: Result<Vec<u8>, FrameError>)
    ensures
        body.len() > u32::MAX <==> res is Err,
        res matches Err(e) ==> e == FrameError::BodyTooLong,
        res matches Ok(f) ==> f@ == spec_frame(body@),
{
    if body.len() > u32::MAX as usize {
        return Err(FrameError::BodyTooLong);
    }
    let n = body.len() as u32;
    let mut out: Vec<u8> = Vec::new();
    out.push((n >> 24u32) as u8);
    out.push((n >> 16u32) as u8);
    out.push((n >> 8u32) as u8);
    out.push(n as u8);
    let mut i: usize = 0;
    while i < body.len()
        invariant
            i <= body.len(),
            n == body.len(),
            out@ == be32(n) + body@.take(i as int),
        decreases body.len() - i,
    {
        out.push(body[i]);
        i = i + 1;
        assert(body@.take(i as int) == body@.take(i - 1).push(body@[i - 1]));
    }
    assert(body@.take(body.len() as int) == body@);
    Ok(out)
}

/// Takes one frame from the start of `bytes`: its body and the number of
/// bytes it took.
pub fn decode_frame(bytes: &[u8]) -> (res: Result<(Vec<u8>, usize), FrameError>)
    ensures
        match res {
            Ok((b, n)) => spec_read_frame(bytes@) == Ok::<(Seq<u8>, int), FrameError>(
                (b@, n as int),
            ),
            Err(e) => spec_read_frame(bytes@) == Err::<(Seq<u8>, int), FrameError>(e),
        },
{
    if bytes.len() < 4 {
        return Err(FrameError::Truncated);
    }
    let header: [u8; 4] = [bytes[0], bytes[1], bytes[2], bytes[3]];
    let n = match frame_body_len(header) {
        Ok(n) => n,
        Err(e) => return Err(e),
    };
    if bytes.len() - 4 < n {
        return Err(FrameError::Truncated);
    }
    let mut body: Vec<u8> = Vec::new();
    let mut i: usize = 0;
    while i < n
        invariant
            i <= n,
            4 + n <= bytes.len(),
            body@ == bytes@.subrange(4, 4 + i),
        decreases n - i,
    {
        body.push(bytes[4 + i]);
        i = i + 1;
        assert(bytes@.subrange(4, 4 + i) == bytes@.subrange(4, 4 + i - 1).push(bytes@[4 + i - 1]));
    }
    Ok((body, 4 + n))
}

/// The frame that carries a CBOR item: `NotEncodable` when the item cannot
/// be written, `BodyTooLong` when its encoding is longer than a `u32` can
/// count, else the frame of its encoding. A frame of at most `MAX_FRAME`
/// body bytes, whatever follows it, is read back as the item and the
/// frame's length, for an item without bignum tags that nests at most 128
/// levels.
pub fn frame_item(v: &CborValue) -> (res: Result<Vec<u8>, FrameError>)
    ensures
        !cbor_encodable(v@) ==> res == Err::<Vec<u8>, FrameError>(FrameError::NotEncodable),
        cbor_encodable(v@) && cbor_encoded(v@).len() > u32::MAX ==> res == Err::<
            Vec<u8>,
            FrameError,
        >(FrameError::BodyTooLong),
        cbor_encodable(v@) && cbor_encoded(v@).len() <= u32::MAX ==> (res matches Ok(f) && f@
            == spec_frame(cbor_encoded(v@))),
        res matches Ok(f) ==> (!holds_bignum_tag(v@) && cbor_depth(v@) <= 128 && f@.len() <= 4
            + MAX_FRAME ==> forall|rest: Seq<u8>|
            #[trigger] spec_read_item(f@ + rest) == Ok::<(Cbor, int), FrameError>(
                (v@, f@.len() as int),
            )),
{
    match encode_cbor(v) {
        None => Err(FrameError::NotEncodable),
        Some(body) => {
            let res = encode_frame(body.as_slice());
            proof {
                if res is Ok && !holds_bignum_tag(v@) && cbor_depth(v@) <= 128 && body@.len()
                    <= MAX_FRAME {
                    assert forall|rest: Seq<u8>|
                        #[trigger] spec_read_item(spec_frame(body@) + rest) == Ok::<
                            (Cbor, int),
                            FrameError,
                        >((v@, 4 + body@.len() as int)) by {
                        lemma_frame_roundtrip(body@, rest);
                    }
                }
            }
            res
        },
    }
}

/// The CBOR item a frame's body holds: `NotCbor` when it holds none.
pub fn item_of_body(body: &[u8]) -> (res: Result<CborValue, FrameError>)
    ensures
        match cbor_decoded(body@) {
            None => res == Err::<CborValue, FrameError>(FrameError::NotCbor),
            Some(c) => res matches Ok(v) && v@ == c,
        },
{
    match decode_cbor(body) {
        Err(_) => Err(FrameError::NotCbor),
        Ok(v) => Ok(v),
    }
}

/// What reading one frame that carries a CBOR item from the start of `bytes`
/// gives: the item and the number of bytes the frame took.
pub open spec fn spec_read_item(bytes: Seq<u8>) -> Result<(Cbor, int), FrameError> {
    match spec_read_frame(bytes) {
        Err(e) => Err(e),
        Ok((body, n)) => match cbor_decoded(body) {
            None => Err(FrameError::NotCbor),
            Some(c) => Ok((c, n)),
        },
    }
}

/// Takes one frame from the start of `bytes` and reads the CBOR item its
/// body holds.
pub fn read_frame_item(bytes: &[u8]) -> (res: Result<(CborValue, usize), FrameError>)
    ensures
        match res {
            Ok((v, n)) => spec_read_item(bytes@) == Ok::<(Cbor, int), FrameError>((v@, n as int)),
            Err(e) => spec_read_item(bytes@) == Err::<(Cbor, int), FrameError>(e),
        },
{
    match decode_frame(bytes) {
        Err(e) => Err(e),
        Ok((body, n)) => match item_of_body(body.as_slice()) {
            Err(e) => Err(e),
            Ok(v) => Ok((v, n)),
        },
    }
}

/// A frame read back gives the body written, whatever follows it: for a body
/// of at most `MAX_FRAME` bytes, reading from the frame of `body` followed by
/// `rest` yields `body` and the frame's length.
pub proof fn lemma_frame_roundtrip(body: Seq<u8>, rest: Seq<u8>)
    requires
        body.len() <= MAX_FRAME,
    ensures
        spec_read_frame(spec_frame(body) + rest) == Ok::<(Seq<u8>, int), FrameError>(
            (body, 4 + body.len() as int),
        ),
{
    let n = body.len() as u32;
    lemma_be32_roundtrip(n);
    let bytes = spec_frame(body) + rest;
    assert(bytes[0] == be32(n)[0]);
    assert(bytes[1] == be32(n)[1]);
    assert(bytes[2] == be32(n)[2]);
    assert(bytes[3] == be32(n)[3]);
    assert(bytes.subrange(4, 4 + body.len() as int) == body);
}

} // verus!
