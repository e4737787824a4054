//! The wire format: one frame is a four-byte little-endian length, a nonce,
//! and a body of ciphertext and tag; a stream is frame after frame until the
//! bytes end.

use crate::error::StageError;
use vstd::prelude::*;
use vstd::slice::slice_subrange;
use vstd::slice::slice_to_vec;

verus! {

/// Bytes in the length prefix of a frame.
pub const LEN_PREFIX_SIZE: usize = 4;

/// Bytes in the nonce of a frame.
pub const NONCE_SIZE: usize = 12;

/// Bytes in the authentication tag that ends the body of a frame.
pub const TAG_SIZE: usize = 16;

/// A frame as a mathematical value.
pub struct Frame {
    pub nonce: Seq<u8>,
    pub body: Seq<u8>,
}

/// One sealed chunk: the nonce it was sealed under, and the ciphertext
/// followed by the tag.
#[derive(Debug, Clone, PartialEq, Eq)]
pub struct CipherText {
    pub nonce: Vec<u8>,
    pub vec: Vec<u8>,
}

impl View for CipherText {
    type V = Frame;

    open spec fn view(&self) -> Frame {
        Frame { nonce: self.nonce@, body: self.vec@ }
    }
}

impl CipherText {
    /// The number of bytes that the length prefix of this frame counts.
    pub fn len(&self) -> (n: usize)
        requires
            payload_len(self@) <= usize::MAX,
        ensures
            n == payload_len(self@),
    {
        self.nonce.len() + self.vec.len()
    }
}

/// The number of bytes that follow the length prefix of `f`.
pub open spec fn payload_len(f: Frame) -> nat {
    f.nonce.len() + f.body.len()
}

/// A frame that the format admits: a whole nonce, a tag, at least one byte
/// of ciphertext, and a length that the prefix can hold.
pub open spec fn well_formed(f: Frame) -> bool {
    &&& f.nonce.len() == NONCE_SIZE
    &&& f.body.len() > TAG_SIZE
    &&& payload_len(f) <= u32::MAX
}

/// The four bytes of `n`, least significant first.
pub open spec fn len_prefix(n: nat) -> Seq<u8> {
    seq![
        (n % 256) as u8,
        (n / 256 % 256) as u8,
        (n / 65536 % 256) as u8,
        (n / 16777216 % 256) as u8,
    ]
}

/// The number that the first four bytes of `b` spell, least significant first.
pub open spec fn prefix_value(b: Seq<u8>) -> nat {
    (b[0] as nat) + (b[1] as nat) * 256 + (b[2] as nat) * 65536 + (b[3] as nat) * 16777216
}

/// The bytes of one frame on the wire.
pub open spec fn frame_wire(f: Frame) -> Seq<u8> {
    len_prefix(payload_len(f)) + f.nonce + f.body
}

/// The bytes of a run of frames on the wire.
pub open spec fn stream_wire(frames: Seq<Frame>) -> Seq<u8>
    decreases frames.len(),
{
    if frames.len() == 0 {
        Seq::empty()
    } else {
        frame_wire(frames[0]) + stream_wire(frames.drop_first())
    }
}

/// What stands at the head of a stream.
pub enum FrameParse {
    /// Nothing: the stream ends here, at a frame boundary.
    End,
    /// A frame that takes up the first `used` bytes.
    Unit { frame: Frame, used: nat },
    /// No frame, for the reason given.
    Broken(StageError),
}

/// What a length prefix says, of which the bytes `read` could be had: `None`
/// at the end of the stream, else the number of bytes that follow.
pub open spec fn parse_length(read: Seq<u8>) -> Result<Option<usize>, StageError> {
    if read.len() == 0 {
        Ok(None)
    } else if read.len() < LEN_PREFIX_SIZE {
        Err(StageError::IllegalLength(read.len() as usize))
    } else if prefix_value(read) <= NONCE_SIZE + TAG_SIZE {
        Err(StageError::Format(prefix_value(read) as usize))
    } else {
        Ok(Some(prefix_value(read) as usize))
    }
}

/// Reads the head of the stream `s`.
pub open spec fn parse_frame(s: Seq<u8>) -> FrameParse {
    match parse_length(s.take(if s.len() < LEN_PREFIX_SIZE { s.len() as int } else { LEN_PREFIX_SIZE as int })) {
        Ok(None) => FrameParse::End,
        Err(e) => FrameParse::Broken(e),
        Ok(Some(declared)) => if s.len() < LEN_PREFIX_SIZE + declared {
            FrameParse::Broken(StageError::UnexpectedEof)
        } else {
            FrameParse::Unit {
                frame: Frame {
                    nonce: s.subrange(LEN_PREFIX_SIZE as int, LEN_PREFIX_SIZE + NONCE_SIZE),
                    body: s.subrange(LEN_PREFIX_SIZE + NONCE_SIZE, LEN_PREFIX_SIZE + declared),
                },
                used: (LEN_PREFIX_SIZE + declared) as nat,
            }
        },
    }
}

/// Reading a length prefix gives back the number it was written from.
pub proof fn lemma_prefix_value_of_len_prefix(n: nat)
    requires
        n <= u32::MAX,
    ensures
        len_prefix(n).len() == LEN_PREFIX_SIZE,
        prefix_value(len_prefix(n)) == n,
{
}

/// Reading the head of a stream that starts with the wire form of a
/// well-formed frame gives that frame, and leaves what followed it.
pub proof fn lemma_parse_frame_of_wire(f: Frame, rest: Seq<u8>)
    requires
        well_formed(f),
    ensures
        frame_wire(f).len() == LEN_PREFIX_SIZE + payload_len(f),
        parse_frame(frame_wire(f) + rest) == (FrameParse::Unit {
            frame: f,
            used: frame_wire(f).len(),
        }),
        (frame_wire(f) + rest).skip(frame_wire(f).len() as int) == rest,
{
    let s = frame_wire(f) + rest;
    let n = payload_len(f);
    lemma_prefix_value_of_len_prefix(n);
    assert(s.take(4) =~= len_prefix(n));
    assert(s.subrange(4, 16) =~= f.nonce);
    assert(s.subrange(16, (4 + n) as int) =~= f.body);
    assert(s.skip(frame_wire(f).len() as int) =~= rest);
}

/// Writes `n` as a length prefix.
pub fn encode_length(n: u32) -> (bytes: Vec<u8>)
    ensures
        bytes@ == len_prefix(n as nat),
{
    let mut bytes: Vec<u8> = Vec::with_capacity(4);
    bytes.push((n % 256) as u8);
    bytes.push((n / 256 % 256) as u8);
    bytes.push((n / 65536 % 256) as u8);
    bytes.push((n / 16777216 % 256) as u8);
    assert(bytes@ =~= len_prefix(n as nat));
    bytes
}

/// Decides what a read of a length prefix means. `read` holds the bytes that
/// the source gave for the prefix, none at the end of the stream.
pub fn read_length(read: &[u8]) -> (r: Result<Option<usize>, StageError>)
    requires
        read@.len() <= LEN_PREFIX_SIZE,
    ensures
        r == parse_length(read@),
{
    let got: usize = read.len();
    if got == 0 {
        return Ok(None);
    }
    if got != LEN_PREFIX_SIZE {
        return Err(StageError::IllegalLength(got));
    }
    let declared: u32 = (read[0] as u32) + (read[1] as u32) * 256 + (read[2] as u32) * 65536 + (
    read[3] as u32) * 16777216;
    if declared as usize <= NONCE_SIZE + TAG_SIZE {
        Err(StageError::Format(declared as usize))
    } else {
        Ok(Some(declared as usize))
    }
}

/// Serialises one frame: the prefix, the nonce, the body.
pub fn encode_frame(frame: &CipherText) -> (bytes: Vec<u8>)
    requires
        payload_len(frame@) <= u32::MAX,
    ensures
        bytes@ == frame_wire(frame@),
{
    let mut bytes = encode_length(frame.len() as u32);
    append_bytes(&mut bytes, frame.nonce.as_slice());
    append_bytes(&mut bytes, frame.vec.as_slice());
    bytes
}

/// Appends `more` to `out`.
pub fn append_bytes(out: &mut Vec<u8>, more: &[u8])
    ensures
        final(out)@ == old(out)@ + more@,
{
    out.extend_from_slice(more);
    assert(out@ =~= old(out)@ + more@);
}

/// Reads the frame that starts at `pos` in `input`: `Ok(None)` where the
/// stream ends there, else the frame and the position behind it, or the
/// reason why no frame can be read.
pub fn read_frame(input: &[u8], pos: usize) -> (r: Result<Option<(CipherText, usize)>, StageError>)
    requires
        pos <= input@.len(),
    ensures
        match parse_frame(input@.skip(pos as int)) {
            FrameParse::End => r == Ok::<Option<(CipherText, usize)>, StageError>(None),
            FrameParse::Broken(e) => r == Err::<Option<(CipherText, usize)>, StageError>(e),
            FrameParse::Unit { frame, used } => match r {
                Ok(Some((unit, next))) => unit@ == frame && next == pos + used,
                _ => false,
            },
        },
{
    let ghost s = input@.skip(pos as int);
    let left: usize = input.len() - pos;
    let head: usize = if left < LEN_PREFIX_SIZE {
        left
    } else {
        LEN_PREFIX_SIZE
    };
    let prefix = slice_subrange(input, pos, pos + head);
    assert(prefix@ =~= s.take(head as int));
    let declared = match read_length(prefix) {
        Ok(None) => {
            return Ok(None);
        },
        Err(e) => {
            return Err(e);
        },
        Ok(Some(declared)) => declared,
    };
    if left - LEN_PREFIX_SIZE < declared {
        return Err(StageError::UnexpectedEof);
    }
    let start: usize = pos + LEN_PREFIX_SIZE;
    let nonce = slice_to_vec(slice_subrange(input, start, start + NONCE_SIZE));
    let vec = slice_to_vec(slice_subrange(input, start + NONCE_SIZE, start + declared));
    assert(nonce@ =~= s.subrange(LEN_PREFIX_SIZE as int, LEN_PREFIX_SIZE + NONCE_SIZE));
    assert(vec@ =~= s.subrange(LEN_PREFIX_SIZE + NONCE_SIZE, LEN_PREFIX_SIZE + declared));
    Ok(Some((CipherText { nonce, vec }, start + declared)))
}

} // verus!
