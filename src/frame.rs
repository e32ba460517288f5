//! Length-prefixed framing: every socket message is one frame made of a
//! 3-byte big-endian body length followed by exactly that many body bytes.

use vstd::prelude::*;
use crate::codec::write_raw;
use crate::error::{Error, FrameError};

verus! {

/// Largest frame body: the length field has 24 bits.
pub const MAX_FRAME_SIZE: usize = 16777215;

/// The three length bytes of a frame body of `len` bytes, most significant first.
pub open spec fn frame_len_bytes(len: nat) -> Seq<u8> {
    seq![(len / 65536) as u8, ((len / 256) % 256) as u8, (len % 256) as u8]
}

/// The length that three big-endian bytes denote.
pub open spec fn frame_len_value(b: Seq<u8>) -> nat {
    (b[0] as nat) * 65536 + (b[1] as nat) * 256 + (b[2] as nat)
}

/// Writes the 3-byte big-endian length prefix of a `len`-byte body into the
/// first three bytes of `buf`.
pub fn write_frame_len(buf: &mut [u8], len: usize)
    requires
        old(buf)@.len() >= 3,
        len <= MAX_FRAME_SIZE,
    ensures
        final(buf)@.len() == old(buf)@.len(),
        final(buf)@.subrange(0, 3) == frame_len_bytes(len as nat),
        final(buf)@.subrange(3, final(buf)@.len() as int) == old(buf)@.subrange(3, old(buf)@.len() as int),
{
    buf[0] = (len >> 16) as u8;
    buf[1] = ((len >> 8) & 0xff) as u8;
    buf[2] = (len & 0xff) as u8;
    proof {
        assert((len >> 16) as u8 == (len / 65536) as u8) by (bit_vector)
            requires len <= 16777215usize;
        assert(((len >> 8) & 0xff) as u8 == ((len / 256) % 256) as u8) by (bit_vector);
        assert((len & 0xff) as u8 == (len % 256) as u8) by (bit_vector);
        assert(final(buf)@.subrange(0, 3) =~= frame_len_bytes(len as nat));
        assert(final(buf)@.subrange(3, final(buf)@.len() as int) =~= old(buf)@.subrange(3, old(buf)@.len() as int));
    }
}

/// Reads the 3-byte big-endian length at the start of `buf`.
pub fn read_frame_len(buf: &[u8]) -> (r: usize)
    requires
        buf@.len() >= 3,
    ensures
        r as nat == frame_len_value(buf@),
        r <= MAX_FRAME_SIZE,
{
    let b0 = buf[0];
    let b1 = buf[1];
    let b2 = buf[2];
    let r = ((b0 as usize) << 16) | ((b1 as usize) << 8) | (b2 as usize);
    assert(r == (b0 as usize) * 65536 + (b1 as usize) * 256 + (b2 as usize)) by (bit_vector)
        requires r == ((b0 as usize) << 16) | ((b1 as usize) << 8) | (b2 as usize);
    r
}

/// Reading back a written length prefix gives the length.
pub proof fn lemma_frame_len_roundtrip(len: nat)
    requires
        len <= MAX_FRAME_SIZE,
    ensures
        frame_len_value(frame_len_bytes(len)) == len,
{
    let b = frame_len_bytes(len);
    assert((((len / 65536) as u8) as nat) * 65536 + ((((len / 256) % 256) as u8) as nat) * 256
        + (((len % 256) as u8) as nat) == len) by (nonlinear_arith)
        requires len <= 16777215;
}

/// What a socket message carrying `msg` holds as a frame: its body, or why
/// it is no frame.
pub open spec fn frame_body(msg: Seq<u8>) -> Result<Seq<u8>, FrameError> {
    if msg.len() < 3 {
        Err(FrameError::TooShort)
    } else if frame_len_value(msg) != msg.len() - 3 {
        Err(FrameError::LengthMismatch)
    } else {
        Ok(msg.subrange(3, msg.len() as int))
    }
}

/// The socket message that carries `body` as one frame.
pub fn encode_frame(body: &[u8]) -> (r: Result<Vec<u8>, Error>)
    ensures
        r is Ok <==> body@.len() <= MAX_FRAME_SIZE,
        r matches Ok(m) ==> m@ == frame_len_bytes(body@.len()) + body@,
        r matches Err(e) ==> e matches Error::Frame(FrameError::TooLarge),
{
    if body.len() > MAX_FRAME_SIZE {
        return Err(Error::Frame(FrameError::TooLarge));
    }
    let mut msg: Vec<u8> = Vec::with_capacity(3 + body.len());
    msg.push(0);
    msg.push(0);
    msg.push(0);
    write_frame_len(msg.as_mut_slice(), body.len());
    assert(msg@ =~= frame_len_bytes(body@.len()));
    write_raw(&mut msg, body);
    Ok(msg)
}

/// The body of the frame that a socket message carries. A 3-byte length
/// never exceeds the maximum body size, so no frame is refused as too large
/// here.
pub fn decode_frame(msg: &[u8]) -> (r: Result<Vec<u8>, Error>)
    ensures
        match frame_body(msg@) {
            Ok(b) => r matches Ok(v) && v@ == b,
            Err(k) => r matches Err(Error::Frame(e)) && e == k,
        },
{
    if msg.len() < 3 {
        return Err(Error::Frame(FrameError::TooShort));
    }
    let len = read_frame_len(msg);
    if len != msg.len() - 3 {
        return Err(Error::Frame(FrameError::LengthMismatch));
    }
    let body = vstd::slice::slice_subrange(msg, 3, msg.len());
    Ok(vstd::slice::slice_to_vec(body))
}

/// A frame's body comes back out of the message that carries it.
pub proof fn lemma_frame_roundtrip(body: Seq<u8>)
    requires
        body.len() <= MAX_FRAME_SIZE,
    ensures
        frame_body(frame_len_bytes(body.len()) + body) == Ok::<Seq<u8>, FrameError>(body),
{
    let m = frame_len_bytes(body.len()) + body;
    lemma_frame_len_roundtrip(body.len());
    assert(m.subrange(0, 3) =~= frame_len_bytes(body.len()));
    assert(frame_len_value(m) == frame_len_value(frame_len_bytes(body.len())));
    assert(m.subrange(3, m.len() as int) =~= body);
}

} // verus!
