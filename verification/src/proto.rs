//! Frames of the wire protocol: one byte for the type, the length of the
//! payload as four bytes with the highest first, then the payload.

use vstd::prelude::*;

verus! {

/// Frame type: a message, or the name of a client that connects.
pub const TYPE_MESSAGE: u8 = 77;

/// Frame type: a command to the server or its answer.
pub const TYPE_COMMAND: u8 = 67;

/// Frame type: a file.
pub const TYPE_FILE: u8 = 70;

/// Frame type: the public key of a client.
pub const TYPE_REGISTER: u8 = 82;

/// Frame type: the version of the protocol.
pub const TYPE_VERSION: u8 = 86;

/// The size of the largest file that is sent.
pub const MAX_FILE: usize = 400_000;

/// The size of the largest payload that is received.
pub const MAX_FRAME: usize = 1_048_576;

/// The four bytes of a number below 2^32, the highest first.
pub open spec fn be32(n: nat) -> Seq<u8> {
    seq![
        (n / 0x1000000 % 256) as u8,
        (n / 0x10000 % 256) as u8,
        (n / 0x100 % 256) as u8,
        (n % 256) as u8,
    ]
}

/// The number that four bytes stand for, the highest first.
pub open spec fn from_be32(b: Seq<u8>) -> nat {
    (b[0] * 0x1000000 + b[1] * 0x10000 + b[2] * 0x100 + b[3]) as nat
}

/// The bytes of a frame. The length is written modulo 2^32.
pub open spec fn frame(ftype: u8, payload: Seq<u8>) -> Seq<u8> {
    seq![ftype] + be32(payload.len() % 0x1_0000_0000) + payload
}

/// Why a frame was not received.
#[derive(Clone, Copy, PartialEq, Eq, Structural, Debug)]
pub enum FrameError {
    /// The payload is longer than `MAX_FRAME`.
    TooLarge,
}

/// The bytes of a frame, ready to be sent.
pub fn encode_frame(ftype: u8, payload: &[u8]) -> (r: Vec<u8>)
    ensures
        r@ == frame(ftype, payload@),
{
    let n: u64 = payload.len() as u64 % 0x1_0000_0000;
    let mut r: Vec<u8> = Vec::new();
    r.push(ftype);
    r.push((n / 0x1000000 % 256) as u8);
    r.push((n / 0x10000 % 256) as u8);
    r.push((n / 0x100 % 256) as u8);
    r.push((n % 256) as u8);
    assert(r@ =~= seq![ftype] + be32(n as nat));
    r.extend_from_slice(payload);
    assert(r@ =~= frame(ftype, payload@));
    r
}

/// What the five bytes before a payload say: the type of the frame and the
/// length of the payload, or that it is too long to be received.
pub fn decode_header(h: &[u8; 5]) -> (r: Result<(u8, usize), FrameError>)
    ensures
        r is Ok <==> from_be32(h@.skip(1)) <= MAX_FRAME,
        r matches Ok(p) ==> p.0 == h@[0] && p.1 == from_be32(h@.skip(1)),
        r matches Err(e) ==> e == FrameError::TooLarge,
{
    let n: u64 = h[1] as u64 * 0x1000000 + h[2] as u64 * 0x10000 + h[3] as u64 * 0x100 + h[4] as u64;
    assert(n == from_be32(h@.skip(1)));
    if n > MAX_FRAME as u64 {
        Err(FrameError::TooLarge)
    } else {
        Ok((h[0], n as usize))
    }
}

/// A number below 2^32 is read back from the four bytes that stand for it.
pub proof fn law_length_round_trip(n: nat)
    requires
        n < 0x1_0000_0000,
    ensures
        from_be32(be32(n)) == n,
{
}

/// What is received of a frame is what was sent, for every payload that a
/// receiver admits: the first five bytes give the type and the length of the
/// payload, and that many bytes after them are the payload, whatever follows.
pub proof fn law_frame_round_trip(ftype: u8, payload: Seq<u8>, rest: Seq<u8>)
    requires
        payload.len() <= MAX_FRAME,
    ensures
        (frame(ftype, payload) + rest).len() >= 5,
        (frame(ftype, payload) + rest)[0] == ftype,
        from_be32((frame(ftype, payload) + rest).subrange(1, 5)) == payload.len(),
        (frame(ftype, payload) + rest).subrange(5, 5 + payload.len() as int) == payload,
        (frame(ftype, payload) + rest).skip(5 + payload.len() as int) == rest,
{
    let s = frame(ftype, payload) + rest;
    law_length_round_trip(payload.len());
    assert(s.subrange(1, 5) =~= be32(payload.len()));
    assert(s.subrange(5, 5 + payload.len() as int) =~= payload);
    assert(s.skip(5 + payload.len() as int) =~= rest);
}

/// The length of a payload stands before it with the highest byte first, after
/// the byte for the type.
pub proof fn law_length_highest_first(ftype: u8, payload: Seq<u8>)
    requires
        payload.len() < 0x1_0000_0000,
    ensures
        ({
            let f = frame(ftype, payload);
            &&& f.len() == payload.len() + 5
            &&& f[0] == ftype
            &&& f[1] as int * 16777216 + f[2] as int * 65536 + f[3] as int * 256 + f[4] as int
                == payload.len()
            &&& f.skip(5) == payload
        }),
{
    let f = frame(ftype, payload);
    let n = payload.len();
    assert(f[1] == (n / 0x1000000 % 256) as u8);
    assert(f[2] == (n / 0x10000 % 256) as u8);
    assert(f[3] == (n / 0x100 % 256) as u8);
    assert(f[4] == (n % 256) as u8);
    assert(f.skip(5) =~= payload);
}

} // verus!
