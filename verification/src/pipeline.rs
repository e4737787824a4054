//! The pipeline: a reader stage, a transform stage and a writer stage, each
//! working through the whole queue that the stage before it filled.
//!
//! A queue is a vector of units in the order in which they were produced. The
//! end of a queue stands for the end of the stream; an empty chunk also ends a
//! queue of chunks wherever it occurs.

use crate::cipher::{
    generate_nonce, opening_inverts_sealing, seal, unseal, Cipher, CipherKey, MAX_PLAINTEXT,
};
use crate::error::{collect_outcomes, failures, StageError};
use crate::frame::{
    append_bytes, encode_frame, frame_wire, len_prefix, lemma_parse_frame_of_wire,
    lemma_prefix_value_of_len_prefix, parse_frame, payload_len, read_frame, stream_wire,
    well_formed, CipherText, Frame, FrameParse, LEN_PREFIX_SIZE, NONCE_SIZE, TAG_SIZE,
};
use rand::rngs::ThreadRng;
use vstd::prelude::*;
use vstd::slice::slice_subrange;
use vstd::slice::slice_to_vec;

verus! {

/// Bytes in a full chunk of plaintext.
pub const CHUNK_SIZE: usize = 4096;

/// The number of chunks that a plaintext of `len` bytes is cut into: `len`
/// over `CHUNK_SIZE`, rounded up.
pub open spec fn chunk_count(len: nat) -> nat {
    ((len + CHUNK_SIZE - 1) / (CHUNK_SIZE as int)) as nat
}

/// The chunk of `input` with the index `i`.
pub open spec fn chunk_at(input: Seq<u8>, i: int) -> Seq<u8> {
    input.subrange(
        i * CHUNK_SIZE,
        if (i + 1) * CHUNK_SIZE <= input.len() {
            (i + 1) * CHUNK_SIZE
        } else {
            input.len() as int
        },
    )
}

/// The chunks that `input` is cut into, in order: all full but the last.
pub open spec fn chunks(input: Seq<u8>) -> Seq<Seq<u8>> {
    Seq::new(chunk_count(input.len()), |i: int| chunk_at(input, i))
}

/// The contents of a queue of chunks.
pub open spec fn chunk_views(queue: Seq<Vec<u8>>) -> Seq<Seq<u8>> {
    Seq::new(queue.len(), |i: int| queue[i]@)
}

/// The contents of a queue of frames.
pub open spec fn frame_views(queue: Seq<CipherText>) -> Seq<Frame> {
    Seq::new(queue.len(), |i: int| queue[i]@)
}

/// A chunk that the transform stage seals: not the empty chunk, which ends
/// the stream, and not longer than the cipher takes.
pub open spec fn sealable(chunk: Seq<u8>) -> bool {
    0 < chunk.len() <= MAX_PLAINTEXT
}

/// A chunk that fits a frame: not the empty chunk, and short enough for the
/// length prefix to count it together with the nonce and the tag.
pub open spec fn fits_frame(chunk: Seq<u8>) -> bool {
    0 < chunk.len() && NONCE_SIZE + chunk.len() + TAG_SIZE <= u32::MAX
}

/// The frames that sealing the chunks of `queue` under `nonces` gives.
pub open spec fn sealed_frames(c: CipherKey, queue: Seq<Seq<u8>>, nonces: Seq<Seq<u8>>) -> Seq<
    Frame,
> {
    Seq::new(
        queue.len(),
        |i: int| Frame { nonce: nonces[i], body: seal(c, nonces[i], queue[i]) },
    )
}

/// The nonces fit the queue: every chunk fits a frame and has a nonce of the
/// right size, and each sealed body is one tag longer than its chunk.
pub open spec fn nonces_fit(c: CipherKey, queue: Seq<Seq<u8>>, nonces: Seq<Seq<u8>>) -> bool {
    &&& nonces.len() == queue.len()
    &&& forall|i: int|
        #![trigger nonces[i]]
        #![trigger queue[i]]
        0 <= i < queue.len() ==> {
            &&& fits_frame(queue[i])
            &&& nonces[i].len() == NONCE_SIZE
            &&& seal(c, nonces[i], queue[i]).len() == queue[i].len() + TAG_SIZE
        }
}

/// The ciphertext stream of the chunks of `queue` under `c`, with `nonces`
/// for the chunks.
pub open spec fn encryption(c: CipherKey, queue: Seq<Seq<u8>>, nonces: Seq<Seq<u8>>) -> Seq<u8> {
    stream_wire(sealed_frames(c, queue, nonces))
}

/// `stream` is a ciphertext stream of `plain` under `c`, however the
/// plaintext was cut into chunks and whatever nonces were drawn for them.
pub open spec fn is_encryption_of(c: CipherKey, stream: Seq<u8>, plain: Seq<u8>) -> bool {
    exists|queue: Seq<Seq<u8>>, nonces: Seq<Seq<u8>>| #[trigger]
        nonces_fit(c, queue, nonces) && joined(queue) == plain && stream == encryption(
            c,
            queue,
            nonces,
        )
}

/// The bytes of a queue of chunks, up to its end or its first empty chunk.
pub open spec fn joined(queue: Seq<Seq<u8>>) -> Seq<u8>
    decreases queue.len(),
{
    if queue.len() == 0 || queue[0].len() == 0 {
        Seq::empty()
    } else {
        queue[0] + joined(queue.drop_first())
    }
}

/// The reader stage of encryption: cuts `input` into chunks of `CHUNK_SIZE`
/// bytes, the last one shorter where the input does not fill it.
pub fn produce_plaintext(input: &[u8]) -> (queue: Vec<Vec<u8>>)
    ensures
        chunk_views(queue@) == chunks(input@),
{
    let mut queue: Vec<Vec<u8>> = Vec::new();
    let mut pos: usize = 0;
    while pos < input.len()
        invariant
            pos <= input@.len(),
            pos == queue@.len() * CHUNK_SIZE || pos == input@.len(),
            queue@.len() == chunk_count(pos as nat),
            forall|j: int| 0 <= j < queue@.len() ==> (#[trigger] queue@[j])@ == chunk_at(input@, j),
        decreases input@.len() - pos,
    {
        let left: usize = input.len() - pos;
        let take: usize = if left < CHUNK_SIZE {
            left
        } else {
            CHUNK_SIZE
        };
        let chunk = slice_to_vec(slice_subrange(input, pos, pos + take));
        queue.push(chunk);
        pos = pos + take;
    }
    assert(chunk_views(queue@) =~= chunks(input@));
    queue
}

/// The transform stage of encryption: seals chunk after chunk, each under a
/// fresh nonce, until the queue or the stream ends or the cipher refuses a
/// chunk.
pub fn do_encrypt(cipher: &Cipher, rng: &mut ThreadRng, plaintext_rx: &Vec<Vec<u8>>) -> (out: (
    Vec<CipherText>,
    Result<(), StageError>,
))
    ensures
        out.0@.len() <= plaintext_rx@.len(),
        forall|j: int|
            #![trigger out.0@[j]]
            #![trigger plaintext_rx@[j]]
            0 <= j < out.0@.len() ==> {
                &&& sealable(plaintext_rx@[j]@)
                &&& out.0@[j]@.nonce.len() == NONCE_SIZE
                &&& out.0@[j]@.body == seal(cipher@, out.0@[j]@.nonce, plaintext_rx@[j]@)
                &&& out.0@[j]@.body.len() == plaintext_rx@[j]@.len() + TAG_SIZE
            },
        out.0@.len() == plaintext_rx@.len() || !sealable(plaintext_rx@[out.0@.len() as int]@),
        out.1 == (if out.0@.len() < plaintext_rx@.len() && plaintext_rx@[out.0@.len() as int]@.len()
            > 0 {
            Err::<(), StageError>(StageError::Encrypt)
        } else {
            Ok::<(), StageError>(())
        }),
{
    let mut frames: Vec<CipherText> = Vec::new();
    let mut i: usize = 0;
    while i < plaintext_rx.len()
        invariant
            i <= plaintext_rx@.len(),
            frames@.len() == i,
            forall|j: int|
                #![trigger frames@[j]]
                #![trigger plaintext_rx@[j]]
                0 <= j < i ==> {
                    &&& sealable(plaintext_rx@[j]@)
                    &&& frames@[j]@.nonce.len() == NONCE_SIZE
                    &&& frames@[j]@.body == seal(cipher@, frames@[j]@.nonce, plaintext_rx@[j]@)
                    &&& frames@[j]@.body.len() == plaintext_rx@[j]@.len() + TAG_SIZE
                },
        decreases plaintext_rx@.len() - i,
    {
        let chunk = slice_to_vec(plaintext_rx[i].as_slice());
        if chunk.len() == 0 {
            return (frames, Ok(()));
        }
        let nonce = generate_nonce(rng);
        match cipher.seal_chunk(nonce, chunk) {
            Ok(frame) => {
                frames.push(frame);

            },
            Err(e) => {
                return (frames, Err(e));
            },
        }
        i = i + 1;
    }
    (frames, Ok(()))
}

/// The writer stage of encryption: appends the wire form of frame after
/// frame to `output`.
pub fn consume_ciphertext(output: &mut Vec<u8>, ciphertext_rx: &Vec<CipherText>) -> (r: Result<
    (),
    StageError,
>)
    requires
        forall|j: int|
            0 <= j < ciphertext_rx@.len() ==> payload_len((#[trigger] ciphertext_rx@[j])@)
                <= u32::MAX,
    ensures
        r is Ok,
        final(output)@ == old(output)@ + stream_wire(frame_views(ciphertext_rx@)),
{
    let ghost frames = frame_views(ciphertext_rx@);
    let mut i: usize = 0;
    assert(frames.skip(0) =~= frames);
    while i < ciphertext_rx.len()
        invariant
            i <= ciphertext_rx@.len(),
            frames == frame_views(ciphertext_rx@),
            forall|j: int|
                0 <= j < ciphertext_rx@.len() ==> payload_len((#[trigger] ciphertext_rx@[j])@)
                    <= u32::MAX,
            old(output)@ + stream_wire(frames) == output@ + stream_wire(frames.skip(i as int)),
        decreases ciphertext_rx@.len() - i,
    {
        let bytes = encode_frame(&ciphertext_rx[i]);
        proof {
            let rest = frames.skip(i as int);
            assert(rest.drop_first() =~= frames.skip(i + 1));
            assert(rest[0] == ciphertext_rx@[i as int]@);
            assert(output@ + stream_wire(rest) =~= (output@ + bytes@) + stream_wire(
                frames.skip(i + 1),
            ));
        }
        append_bytes(output, bytes.as_slice());
        i = i + 1;
    }
    assert(output@ + stream_wire(frames.skip(i as int)) =~= output@);
    Ok(())
}

/// What the reader stage of decryption makes of the stream `s`: the frames
/// up to the end of the stream or the first place where no frame can be
/// read, and how reading ended.
pub open spec fn read_stream(s: Seq<u8>) -> (Seq<Frame>, Result<(), StageError>)
    decreases s.len(),
{
    match parse_frame(s) {
        FrameParse::End => (Seq::empty(), Ok(())),
        FrameParse::Broken(e) => (Seq::empty(), Err(e)),
        FrameParse::Unit { frame, used } => {
            let rest = read_stream(s.skip(used as int));
            (seq![frame] + rest.0, rest.1)
        },
    }
}

/// What the transform stage of decryption makes of `frames`: the plaintexts
/// of the frames before the first one that does not authenticate, and how
/// opening ended.
pub open spec fn opened(c: CipherKey, frames: Seq<Frame>) -> (Seq<Seq<u8>>, Result<(), StageError>)
    decreases frames.len(),
{
    if frames.len() == 0 {
        (Seq::empty(), Ok(()))
    } else {
        match unseal(c, frames[0].nonce, frames[0].body) {
            None => (Seq::empty(), Err(StageError::Decrypt)),
            Some(plain) => {
                let rest = opened(c, frames.drop_first());
                (seq![plain] + rest.0, rest.1)
            },
        }
    }
}

/// The plaintext that decrypting the stream `s` under `c` writes.
pub open spec fn decryption(c: CipherKey, s: Seq<u8>) -> Seq<u8> {
    joined(opened(c, read_stream(s).0).0)
}

/// The reader stage of decryption: reads frame after frame from `input`
/// until the stream ends at a frame boundary, or no frame can be read.
pub fn produce_ciphertext(input: &[u8]) -> (out: (Vec<CipherText>, Result<(), StageError>))
    ensures
        frame_views(out.0@) == read_stream(input@).0,
        out.1 == read_stream(input@).1,
        forall|j: int| 0 <= j < out.0@.len() ==> well_formed((#[trigger] out.0@[j])@),
{
    let mut frames: Vec<CipherText> = Vec::new();
    let mut pos: usize = 0;
    assert(input@.skip(0) =~= input@);
    loop
        invariant
            pos <= input@.len(),
            read_stream(input@).0 == frame_views(frames@) + read_stream(input@.skip(pos as int)).0,
            read_stream(input@).1 == read_stream(input@.skip(pos as int)).1,
            forall|j: int| 0 <= j < frames@.len() ==> well_formed((#[trigger] frames@[j])@),
        decreases input@.len() - pos,
    {
        let ghost s = input@.skip(pos as int);
        match read_frame(input, pos) {
            Ok(None) => {
                assert(frame_views(frames@) + read_stream(s).0 =~= frame_views(frames@));
                return (frames, Ok(()));
            },
            Err(e) => {
                assert(frame_views(frames@) + read_stream(s).0 =~= frame_views(frames@));
                return (frames, Err(e));
            },
            Ok(Some((frame, next))) => {
                proof {
                    let used = next - pos;
                    assert(s.skip(used) =~= input@.skip(next as int));
                    assert(frame_views(frames@.push(frame)) =~= frame_views(frames@) + seq![
                        frame@,
                    ]);
                    assert(frame_views(frames@) + (seq![frame@] + read_stream(s.skip(used)).0)
                        =~= (frame_views(frames@) + seq![frame@]) + read_stream(s.skip(used)).0);
                }
                frames.push(frame);
                pos = next;
            },
        }
    }
}

/// The transform stage of decryption: opens frame after frame until the
/// queue ends or a frame does not authenticate.
pub fn do_decrypt(cipher: &Cipher, ciphertext_rx: &Vec<CipherText>) -> (out: (
    Vec<Vec<u8>>,
    Result<(), StageError>,
))
    requires
        forall|j: int|
            0 <= j < ciphertext_rx@.len() ==> (#[trigger] ciphertext_rx@[j])@.nonce.len()
                == NONCE_SIZE,
    ensures
        chunk_views(out.0@) == opened(cipher@, frame_views(ciphertext_rx@)).0,
        out.1 == opened(cipher@, frame_views(ciphertext_rx@)).1,
        out.0@.len() <= ciphertext_rx@.len(),
        out.1 is Ok <==> out.0@.len() == ciphertext_rx@.len(),
        forall|j: int|
            0 <= j < ciphertext_rx@.len() && j <= out.0@.len() ==> opening_inverts_sealing(
                cipher@,
                (#[trigger] frame_views(ciphertext_rx@)[j]).nonce,
                frame_views(ciphertext_rx@)[j].body,
            ),
{
    let ghost frames = frame_views(ciphertext_rx@);
    let mut plains: Vec<Vec<u8>> = Vec::new();
    let mut i: usize = 0;
    assert(frames.skip(0) =~= frames);
    while i < ciphertext_rx.len()
        invariant
            i <= ciphertext_rx@.len(),
            plains@.len() == i,
            frames == frame_views(ciphertext_rx@),
            forall|j: int|
                0 <= j < ciphertext_rx@.len() ==> (#[trigger] ciphertext_rx@[j])@.nonce.len()
                    == NONCE_SIZE,
            opened(cipher@, frames).0 == chunk_views(plains@) + opened(
                cipher@,
                frames.skip(i as int),
            ).0,
            opened(cipher@, frames).1 == opened(cipher@, frames.skip(i as int)).1,
            forall|j: int|
                0 <= j < i ==> opening_inverts_sealing(
                    cipher@,
                    (#[trigger] frames[j]).nonce,
                    frames[j].body,
                ),
        decreases ciphertext_rx@.len() - i,
    {
        let ghost rest = frames.skip(i as int);
        let frame = CipherText {
            nonce: slice_to_vec(ciphertext_rx[i].nonce.as_slice()),
            vec: slice_to_vec(ciphertext_rx[i].vec.as_slice()),
        };
        assert(rest[0] == frame@);
        assert(rest.drop_first() =~= frames.skip(i + 1));
        match cipher.open_frame(frame) {
            Ok(plain) => {
                proof {
                    assert(chunk_views(plains@.push(plain)) =~= chunk_views(plains@) + seq![
                        plain@,
                    ]);
                    assert(chunk_views(plains@) + (seq![plain@] + opened(
                        cipher@,
                        frames.skip(i + 1),
                    ).0) =~= (chunk_views(plains@) + seq![plain@]) + opened(
                        cipher@,
                        frames.skip(i + 1),
                    ).0);
                }
                plains.push(plain);
            },
            Err(e) => {
                assert(chunk_views(plains@) + opened(cipher@, rest).0 =~= chunk_views(plains@));
                return (plains, Err(e));
            },
        }
        i = i + 1;
    }
    assert(chunk_views(plains@) + opened(cipher@, frames.skip(i as int)).0 =~= chunk_views(
        plains@,
    ));
    (plains, Ok(()))
}

/// The writer stage of decryption: appends chunk after chunk to `output`,
/// up to the end of the queue or its first empty chunk.
pub fn consume_plaintext(output: &mut Vec<u8>, plaintext_rx: &Vec<Vec<u8>>) -> (r: Result<
    (),
    StageError,
>)
    ensures
        r is Ok,
        final(output)@ == old(output)@ + joined(chunk_views(plaintext_rx@)),
{
    let ghost queue = chunk_views(plaintext_rx@);
    let mut i: usize = 0;
    assert(queue.skip(0) =~= queue);
    while i < plaintext_rx.len()
        invariant
            i <= plaintext_rx@.len(),
            queue == chunk_views(plaintext_rx@),
            old(output)@ + joined(queue) == output@ + joined(queue.skip(i as int)),
        decreases plaintext_rx@.len() - i,
    {
        let ghost rest = queue.skip(i as int);
        assert(rest[0] == plaintext_rx@[i as int]@);
        assert(rest.drop_first() =~= queue.skip(i + 1));
        if plaintext_rx[i].len() == 0 {
            assert(output@ + joined(rest) =~= output@);
            return Ok(());
        }
        proof {
            assert(output@ + joined(rest) =~= (output@ + plaintext_rx@[i as int]@) + joined(
                queue.skip(i + 1),
            ));
        }
        append_bytes(output, plaintext_rx[i].as_slice());
        i = i + 1;
    }
    assert(output@ + joined(queue.skip(i as int)) =~= output@);
    Ok(())
}

/// Every chunk of a plaintext holds at least one byte and at most
/// `CHUNK_SIZE`; the chunks are `len / CHUNK_SIZE` rounded up in number, none
/// for the empty plaintext.
pub proof fn lemma_chunk_sizes(plain: Seq<u8>)
    ensures
        chunks(plain).len() == chunk_count(plain.len()),
        plain.len() == 0 ==> chunk_count(plain.len()) == 0,
        plain.len() > 0 ==> (chunk_count(plain.len()) - 1) * CHUNK_SIZE < plain.len()
            <= chunk_count(plain.len()) * CHUNK_SIZE,
        forall|i: int|
            0 <= i < chunk_count(plain.len()) ==> 0 < (#[trigger] chunk_at(plain, i)).len()
                <= CHUNK_SIZE,
        forall|i: int|
            0 <= i < chunk_count(plain.len()) - 1 ==> (#[trigger] chunk_at(plain, i)).len()
                == CHUNK_SIZE,
{
}

/// The chunks of a plaintext, joined, are the plaintext.
pub proof fn lemma_joined_chunks(plain: Seq<u8>)
    ensures
        joined(chunks(plain)) == plain,
    decreases plain.len(),
{
    let queue = chunks(plain);
    if plain.len() == 0 {
        assert(joined(queue) =~= plain);
    } else {
        lemma_chunk_sizes(plain);
        let first = chunk_at(plain, 0);
        let rest = plain.skip(first.len() as int);
        assert(queue[0] == first);
        assert forall|i: int| 0 <= i < chunk_count(rest.len()) implies chunk_at(rest, i)
            == #[trigger] chunk_at(plain, i + 1) by {
            assert(chunk_at(rest, i) =~= chunk_at(plain, i + 1));
        }
        assert(queue.drop_first() =~= chunks(rest));
        lemma_joined_chunks(rest);
        assert(first + rest =~= plain);
    }
}

/// Reading the wire form of well-formed frames gives the frames back, and
/// ends at the end of the stream.
pub proof fn lemma_read_stream_of_wire(frames: Seq<Frame>)
    requires
        forall|i: int| 0 <= i < frames.len() ==> well_formed(#[trigger] frames[i]),
    ensures
        read_stream(stream_wire(frames)) == (frames, Ok::<(), StageError>(())),
    decreases frames.len(),
{
    if frames.len() == 0 {
        assert(read_stream(stream_wire(frames)).0 =~= frames);
    } else {
        let rest = frames.drop_first();
        lemma_parse_frame_of_wire(frames[0], stream_wire(rest));
        lemma_read_stream_of_wire(rest);
        assert(seq![frames[0]] + rest =~= frames);
    }
}

/// Where each frame is the sealing of the plaintext beside it, and opening
/// inverts sealing on every frame that the transform stage comes to, the
/// stage opens the frames to those plaintexts.
pub proof fn lemma_opened_of_sealed(c: CipherKey, frames: Seq<Frame>, plains: Seq<Seq<u8>>)
    requires
        frames.len() == plains.len(),
        forall|i: int|
            0 <= i < frames.len() ==> (#[trigger] plains[i]).len() <= MAX_PLAINTEXT && frames[i].body
                == seal(c, frames[i].nonce, plains[i]),
        forall|j: int|
            0 <= j < frames.len() && j <= opened(c, frames).0.len() ==> opening_inverts_sealing(
                c,
                (#[trigger] frames[j]).nonce,
                frames[j].body,
            ),
    ensures
        opened(c, frames) == (plains, Ok::<(), StageError>(())),
    decreases frames.len(),
{
    if frames.len() == 0 {
        assert(opened(c, frames).0 =~= plains);
    } else {
        let first = frames[0];
        assert(plains[0].len() <= MAX_PLAINTEXT);
        assert(opening_inverts_sealing(c, first.nonce, first.body));
        assert(seal(c, first.nonce, plains[0]) == first.body);
        assert(unseal(c, first.nonce, first.body) == Some(plains[0]));
        let rest = frames.drop_first();
        let rest_plains = plains.drop_first();
        assert forall|j: int|
            0 <= j < rest.len() && j <= opened(c, rest).0.len() implies opening_inverts_sealing(
            c,
            (#[trigger] rest[j]).nonce,
            rest[j].body,
        ) by {
            assert(rest[j] == frames[j + 1]);
        }
        assert forall|i: int| 0 <= i < rest.len() implies (#[trigger] rest_plains[i]).len()
            <= MAX_PLAINTEXT && rest[i].body == seal(c, rest[i].nonce, rest_plains[i]) by {
            assert(rest_plains[i] == plains[i + 1]);
            assert(rest[i] == frames[i + 1]);
        }
        lemma_opened_of_sealed(c, rest, rest_plains);
        assert(seq![plains[0]] + rest_plains =~= plains);
    }
}

/// Decrypting the ciphertext stream of a queue of chunks gives the chunks,
/// joined: the reader stage reads the sealed frames, one for each chunk, and
/// ends without failure; the transform stage opens them to the chunks. This
/// holds where opening inverts sealing on every frame that the transform
/// stage comes to, which is what the cipher gives.
pub proof fn lemma_round_trip(c: CipherKey, queue: Seq<Seq<u8>>, nonces: Seq<Seq<u8>>)
    requires
        nonces_fit(c, queue, nonces),
        forall|j: int|
            0 <= j < queue.len() && j <= opened(c, sealed_frames(c, queue, nonces)).0.len()
                ==> opening_inverts_sealing(
                c,
                (#[trigger] sealed_frames(c, queue, nonces)[j]).nonce,
                sealed_frames(c, queue, nonces)[j].body,
            ),
    ensures
        read_stream(encryption(c, queue, nonces)) == (
            sealed_frames(c, queue, nonces),
            Ok::<(), StageError>(()),
        ),
        opened(c, sealed_frames(c, queue, nonces)) == (queue, Ok::<(), StageError>(())),
        decryption(c, encryption(c, queue, nonces)) == joined(queue),
{
    let frames = sealed_frames(c, queue, nonces);
    lemma_sealed_frames_well_formed(c, queue, nonces);
    lemma_read_stream_of_wire(frames);
    assert forall|i: int| 0 <= i < frames.len() implies (#[trigger] queue[i]).len()
        <= MAX_PLAINTEXT && frames[i].body == seal(c, frames[i].nonce, queue[i]) by {
        assert(fits_frame(queue[i]));
    }
    lemma_opened_of_sealed(c, frames, queue);
}

/// Sealed frames are well formed, where the nonces fit the queue.
pub proof fn lemma_sealed_frames_well_formed(c: CipherKey, queue: Seq<Seq<u8>>, nonces: Seq<Seq<u8>>)
    requires
        nonces_fit(c, queue, nonces),
    ensures
        sealed_frames(c, queue, nonces).len() == queue.len(),
        forall|i: int|
            0 <= i < queue.len() ==> well_formed(#[trigger] sealed_frames(c, queue, nonces)[i]),
{
    let frames = sealed_frames(c, queue, nonces);
    assert forall|i: int| 0 <= i < queue.len() implies well_formed(#[trigger] frames[i]) by {
        assert(fits_frame(queue[i]));
        assert(nonces[i].len() == NONCE_SIZE);
    }
}

/// What `encrypt` writes for a plaintext is a ciphertext stream of that
/// plaintext, with one frame for each of its chunks.
pub proof fn lemma_encryption_of_chunks(c: CipherKey, plain: Seq<u8>, nonces: Seq<Seq<u8>>)
    requires
        nonces_fit(c, chunks(plain), nonces),
    ensures
        is_encryption_of(c, encryption(c, chunks(plain), nonces), plain),
        sealed_frames(c, chunks(plain), nonces).len() == chunk_count(plain.len()),
{
    lemma_joined_chunks(plain);
}

/// The number of bytes that the first `k` of `frames` take on the wire: the
/// place of a frame boundary in their stream.
pub open spec fn boundary(frames: Seq<Frame>, k: int) -> nat {
    stream_wire(frames.take(k)).len()
}

/// A ciphertext stream that is cut off inside a frame does not read to its
/// end: the reader stage fails, on a length prefix that is cut short or on a
/// nonce or body that the stream ends in.
pub proof fn lemma_truncated_stream(frames: Seq<Frame>, cut: int)
    requires
        forall|i: int| 0 <= i < frames.len() ==> well_formed(#[trigger] frames[i]),
        0 <= cut <= stream_wire(frames).len(),
        forall|k: int| 0 <= k <= frames.len() ==> cut != #[trigger] boundary(frames, k),
    ensures
        match read_stream(stream_wire(frames).take(cut)).1 {
            Err(StageError::IllegalLength(_)) => true,
            Err(StageError::UnexpectedEof) => true,
            _ => false,
        },
    decreases frames.len(),
{
    let s = stream_wire(frames);
    let t = s.take(cut);
    assert(frames.take(0) =~= Seq::<Frame>::empty());
    assert(cut != boundary(frames, 0));
    if frames.len() > 0 {
        let f = frames[0];
        let rest = frames.drop_first();
        let w = frame_wire(f);
        let tail = stream_wire(rest);
        lemma_parse_frame_of_wire(f, tail);
        lemma_prefix_value_of_len_prefix(payload_len(f));
        assert(frames.take(1).drop_first() =~= Seq::<Frame>::empty());
        assert(stream_wire(frames.take(1)) =~= w);
        assert(cut != boundary(frames, 1));
        if cut < w.len() {
            if cut < LEN_PREFIX_SIZE {
                assert(t.take(cut) =~= t);
            } else {
                assert(t.take(LEN_PREFIX_SIZE as int) =~= len_prefix(payload_len(f)));
            }
        } else {
            let left = tail.take(cut - w.len());
            assert(t =~= w + left);
            lemma_parse_frame_of_wire(f, left);
            assert forall|k: int| 0 <= k <= rest.len() implies cut - w.len() != #[trigger] boundary(
                rest,
                k,
            ) by {
                assert(frames.take(k + 1).drop_first() =~= rest.take(k));
                assert(boundary(frames, k + 1) == w.len() + boundary(rest, k));
            }
            lemma_truncated_stream(rest, cut - w.len());
        }
    }
}

/// Encrypts `input` and appends the ciphertext stream to `output`: the
/// reader stage cuts the input into chunks, the transform stage seals each
/// chunk under a fresh nonce, the writer stage writes each sealed chunk as a
/// frame. The result gathers the outcomes of the three stages, none of which
/// fails on a source and a sink in memory.
pub fn encrypt(input: &[u8], output: &mut Vec<u8>, cipher: &Cipher, rng: &mut ThreadRng) -> (r:
    Result<(), Vec<String>>)
    ensures
        r is Ok,
        exists|nonces: Seq<Seq<u8>>| #[trigger]
            nonces_fit(cipher@, chunks(input@), nonces) && final(output)@ == old(output)@
                + encryption(cipher@, chunks(input@), nonces),
{
    let plaintext_queue = produce_plaintext(input);
    proof {
        lemma_chunk_sizes(input@);
        assert forall|j: int| 0 <= j < plaintext_queue@.len() implies 0 < (
        #[trigger] plaintext_queue@[j])@.len() <= CHUNK_SIZE by {
            assert(chunk_views(plaintext_queue@)[j] == chunks(input@)[j]);
            assert(0 < chunk_at(input@, j).len() <= CHUNK_SIZE);
        }
    }
    let (frames, transformed) = do_encrypt(cipher, rng, &plaintext_queue);
    let written = consume_ciphertext(output, &frames);
    proof {
        let nonces = Seq::new(frames@.len(), |i: int| frames@[i]@.nonce);
        assert(frame_views(frames@) =~= sealed_frames(cipher@, chunks(input@), nonces));
        assert forall|i: int|
            #![trigger nonces[i]]
            #![trigger chunks(input@)[i]]
            0 <= i < chunks(input@).len() implies fits_frame(chunks(input@)[i]) && nonces[i].len()
            == NONCE_SIZE && seal(cipher@, nonces[i], chunks(input@)[i]).len() == chunks(
            input@,
        )[i].len() + TAG_SIZE by {
            assert(chunk_views(plaintext_queue@)[i] == chunks(input@)[i]);
            assert(frames@[i]@.nonce == nonces[i]);
        }
        assert(nonces_fit(cipher@, chunks(input@), nonces));
    }
    collect_outcomes(Ok(()), transformed, written)
}

/// Decrypts the ciphertext stream `input` and appends the plaintext to
/// `output`: the reader stage reads the frames, the transform stage opens
/// them, the writer stage writes the plaintexts. Plaintext that was opened
/// before a failure stays written. The result gathers the outcomes of the
/// three stages. A ciphertext stream of a plaintext decrypts to that
/// plaintext, without failure.
pub fn decrypt(input: &[u8], output: &mut Vec<u8>, cipher: &Cipher) -> (r: Result<(), Vec<String>>)
    ensures
        final(output)@ == old(output)@ + decryption(cipher@, input@),
        r is Ok <==> read_stream(input@).1 is Ok && opened(cipher@, read_stream(input@).0).1 is Ok,
        match r {
            Ok(_) => true,
            Err(list) => list.deep_view() == failures(
                read_stream(input@).1,
                opened(cipher@, read_stream(input@).0).1,
                Ok(()),
            ),
        },
        forall|plain: Seq<u8>| #[trigger]
            is_encryption_of(cipher@, input@, plain) ==> r is Ok && final(output)@ == old(output)@
                + plain,
{
    let (frames, read) = produce_ciphertext(input);
    let (plains, transformed) = do_decrypt(cipher, &frames);
    let written = consume_plaintext(output, &plains);
    proof {
        assert forall|plain: Seq<u8>| #[trigger]
            is_encryption_of(cipher@, input@, plain) implies read is Ok && transformed is Ok
            && decryption(cipher@, input@) == plain by {
            let (queue, nonces) = choose|queue: Seq<Seq<u8>>, nonces: Seq<Seq<u8>>| #[trigger]
                nonces_fit(cipher@, queue, nonces) && joined(queue) == plain && input@
                    == encryption(cipher@, queue, nonces);
            lemma_sealed_frames_well_formed(cipher@, queue, nonces);
            lemma_read_stream_of_wire(sealed_frames(cipher@, queue, nonces));
            assert(frame_views(frames@) == sealed_frames(cipher@, queue, nonces));
            lemma_round_trip(cipher@, queue, nonces);
        }
    }
    collect_outcomes(read, transformed, written)
}

} // verus!
