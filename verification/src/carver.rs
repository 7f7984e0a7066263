//! The chunk carver. Starting right after a confirmed signature, it walks
//! the chunk stream and copies the image into a buffer of its own.
//!
//! Carried chunks are copied verbatim: header, payload and checksum. The
//! image ends after the terminal chunk, or before the first chunk that
//! cannot be carried. That is a chunk of an unrecognized type, a chunk that
//! extends past the end of the input, or a chunk whose type field is not
//! ASCII.

use vstd::prelude::*;
use vstd::slice::slice_subrange;
use crate::format::{
    ascii, classify, code_at, kind_of, length_at, push_signature, read_chunk_header, signature,
    Chunk, ChunkKind, HeaderError, CRC_LEN, HEADER_LEN,
};

verus! {

/// Maximum number of bytes copied from the input to an image in one step.
pub const COPY_BLOCK: usize = 4096;

/// How the carving of an image ended.
#[derive(Clone, Copy, Debug, PartialEq, Eq, Structural)]
pub enum CarveEnd {
    /// The terminal chunk was reached and copied. The image is complete.
    Terminal,
    /// A chunk of an unrecognized type was found. The image ends before
    /// that chunk, and the input is skipped to the end of its payload.
    Unrecognized,
    /// The input ended within a chunk, or before the next header was
    /// complete. The image ends before that chunk.
    Truncated,
    /// The type field of a chunk contained a byte that is not ASCII. The
    /// image ends before that chunk, and the rest of the input is not
    /// examined.
    Malformed,
}

/// The smaller of two numbers.
pub open spec fn least(a: int, b: int) -> int {
    if a <= b {
        a
    } else {
        b
    }
}

/// The result of carving a chunk stream, as positions in the input.
pub struct Carving {
    /// Offset of the first byte that does not belong to the image.
    pub stop: int,
    /// Offset at which the search for the next signature continues.
    pub resume: int,
    /// How carving ended.
    pub end: CarveEnd,
}

/// The result of carving the chunk stream that starts at offset `at`.
///
/// A carried chunk that lies entirely within the input is taken, and carving
/// continues after it unless it is the terminal chunk. Any other chunk ends
/// the image at `at`. After an unrecognized or truncated chunk, the search
/// resumes at the end of the declared payload, or at the end of the input if
/// the payload extends past it.
pub open spec fn carve_from(input: Seq<u8>, at: int) -> Carving
    decreases input.len() - at,
{
    if at < 0 || at + 8 > input.len() {
        Carving { stop: at, resume: input.len() as int, end: CarveEnd::Truncated }
    } else {
        let length = length_at(input, at) as int;
        let code = code_at(input, at);
        let past_payload = least(at + 8 + length, input.len() as int);
        if !ascii(code) {
            Carving { stop: at, resume: input.len() as int, end: CarveEnd::Malformed }
        } else if !kind_of(code).carried() {
            Carving { stop: at, resume: past_payload, end: CarveEnd::Unrecognized }
        } else if at + 12 + length > input.len() {
            Carving { stop: at, resume: past_payload, end: CarveEnd::Truncated }
        } else if kind_of(code) == ChunkKind::Terminal {
            Carving { stop: at + 12 + length, resume: at + 12 + length, end: CarveEnd::Terminal }
        } else {
            carve_from(input, at + 12 + length)
        }
    }
}

/// Whether the carver takes the chunk at offset `at`: the header is
/// complete, the type is one of the carried kinds, and the payload and the
/// checksum lie within the input.
pub open spec fn takes_chunk(input: Seq<u8>, at: int) -> bool {
    &&& 0 <= at
    &&& at + 8 <= input.len()
    &&& ascii(code_at(input, at))
    &&& kind_of(code_at(input, at)).carried()
    &&& at + 12 + length_at(input, at) <= input.len()
}

/// The chunk found in the input at offset `at`.
pub open spec fn chunk_at(input: Seq<u8>, at: int) -> Chunk {
    let length = length_at(input, at) as int;
    Chunk {
        length: input.subrange(at, at + 4),
        code: code_at(input, at),
        payload: input.subrange(at + 8, at + 8 + length),
        crc: input.subrange(at + 8 + length, at + 12 + length),
    }
}

/// The chunks that the carver takes starting at offset `at`, in order.
pub open spec fn chunks_taken(input: Seq<u8>, at: int) -> Seq<Chunk>
    decreases input.len() - at,
{
    if !takes_chunk(input, at) {
        Seq::empty()
    } else if kind_of(code_at(input, at)) == ChunkKind::Terminal {
        seq![chunk_at(input, at)]
    } else {
        seq![chunk_at(input, at)] + chunks_taken(input, at + 12 + length_at(input, at))
    }
}

/// Carving never moves backward and never leaves the input: the image ends
/// at or after `at`, and the search resumes at or after the end of the
/// image.
pub proof fn lemma_carve_bounds(input: Seq<u8>, at: int)
    requires
        0 <= at <= input.len(),
    ensures
        at <= carve_from(input, at).stop <= carve_from(input, at).resume <= input.len(),
    decreases input.len() - at,
{
    if at + 8 <= input.len() {
        let length = length_at(input, at) as int;
        let code = code_at(input, at);
        if ascii(code) && kind_of(code).carried() && at + 12 + length <= input.len() && kind_of(
            code,
        ) != ChunkKind::Terminal {
            lemma_carve_bounds(input, at + 12 + length);
        }
    }
}

/// Characterizes the offset at which carving stopped, for each way in which
/// carving can end. After the terminal chunk the search resumes immediately.
/// Otherwise the chunk at the stopping offset has an incomplete header, a
/// type field that is not ASCII, an unrecognized type, or a payload or
/// checksum that extends past the end of the input.
pub proof fn lemma_carve_end(input: Seq<u8>, at: int)
    requires
        0 <= at <= input.len(),
    ensures
        ({
            let carving = carve_from(input, at);
            let stop = carving.stop;
            let past_payload = least(stop + 8 + length_at(input, stop), input.len() as int);
            match carving.end {
                CarveEnd::Terminal => carving.resume == stop && at + 12 <= stop,
                CarveEnd::Malformed => {
                    &&& stop + 8 <= input.len()
                    &&& !ascii(code_at(input, stop))
                    &&& carving.resume == input.len()
                },
                CarveEnd::Unrecognized => {
                    &&& stop + 8 <= input.len()
                    &&& ascii(code_at(input, stop))
                    &&& !kind_of(code_at(input, stop)).carried()
                    &&& carving.resume == past_payload
                },
                CarveEnd::Truncated => {
                    ||| stop + 8 > input.len() && carving.resume == input.len()
                    ||| {
                        &&& stop + 8 <= input.len()
                        &&& ascii(code_at(input, stop))
                        &&& kind_of(code_at(input, stop)).carried()
                        &&& stop + 12 + length_at(input, stop) > input.len()
                        &&& carving.resume == past_payload
                    }
                },
            }
        }),
    decreases input.len() - at,
{
    if at + 8 <= input.len() {
        let length = length_at(input, at) as int;
        let code = code_at(input, at);
        if ascii(code) && kind_of(code).carried() && at + 12 + length <= input.len() && kind_of(
            code,
        ) != ChunkKind::Terminal {
            lemma_carve_end(input, at + 12 + length);
        }
    }
}

/// Appends `count` bytes of `input`, starting at offset `from`, to `out`,
/// copying at most `block` bytes in one step. The block size limits the size
/// of a single copy and has no effect on the result.
pub fn copy_blocks(input: &[u8], from: usize, count: usize, block: usize, out: &mut Vec<u8>)
    requires
        from + count <= input@.len(),
        block >= 1,
    ensures
        final(out)@ == old(out)@ + input@.subrange(from as int, from + count),
{
    let len = input.len();
    let mut done: usize = 0;
    while done < count
        invariant
            done <= count,
            from + count <= len == input@.len(),
            block >= 1,
            out@ == old(out)@ + input@.subrange(from as int, from + done),
        decreases count - done,
    {
        let left: usize = count - done;
        let step: usize = if left < block {
            left
        } else {
            block
        };
        let piece = slice_subrange(input, from + done, from + done + step);
        out.extend_from_slice(piece);
        done = done + step;
    }
}

/// An image as returned by the carver.
#[derive(Debug)]
pub struct Carved {
    /// The image: the signature followed by the chunks that were carried.
    pub bytes: Vec<u8>,
    /// Offset at which the search for the next signature continues.
    pub resume: usize,
    /// How carving ended.
    pub end: CarveEnd,
}

/// Carves one image. `at` is the position right after a confirmed
/// signature.
///
/// The image is the signature followed by the input from `at` up to the
/// offset at which [`carve_from`] stops.
pub fn carve(input: &[u8], at: usize) -> (carved: Carved)
    requires
        at <= input@.len(),
    ensures
        carved.bytes@ == signature() + input@.subrange(
            at as int,
            carve_from(input@, at as int).stop,
        ),
        carved.resume == carve_from(input@, at as int).resume,
        carved.end == carve_from(input@, at as int).end,
{
    let len = input.len();
    let mut bytes: Vec<u8> = Vec::new();
    push_signature(&mut bytes);
    let mut pos: usize = at;
    loop
        invariant
            at <= pos <= len,
            len == input@.len(),
            bytes@ == signature() + input@.subrange(at as int, pos as int),
            carve_from(input@, pos as int) == carve_from(input@, at as int),
        decreases len - pos,
    {
        match read_chunk_header(input, pos) {
            Err(HeaderError::Incomplete) => {
                return Carved { bytes, resume: len, end: CarveEnd::Truncated };
            },
            Err(HeaderError::MalformedType { code: _ }) => {
                return Carved { bytes, resume: len, end: CarveEnd::Malformed };
            },
            Ok(header) => {
                let kind = classify(&header.code);
                let room: usize = len - pos - HEADER_LEN;
                let length: usize = header.length as usize;
                let past_payload: usize = if length <= room {
                    pos + HEADER_LEN + length
                } else {
                    len
                };
                if !kind.is_carried() {
                    return Carved { bytes, resume: past_payload, end: CarveEnd::Unrecognized };
                }
                if length > room || room - length < CRC_LEN {
                    return Carved { bytes, resume: past_payload, end: CarveEnd::Truncated };
                }
                let whole: usize = HEADER_LEN + length + CRC_LEN;
                copy_blocks(input, pos, whole, COPY_BLOCK, &mut bytes);
                assert(bytes@ =~= signature() + input@.subrange(at as int, pos + whole)) by {
                    assert(input@.subrange(at as int, pos + whole) =~= input@.subrange(
                        at as int,
                        pos as int,
                    ) + input@.subrange(pos as int, pos + whole));
                }
                pos = pos + whole;
                if kind.is_terminal() {
                    return Carved { bytes, resume: pos, end: CarveEnd::Terminal };
                }
            },
        }
    }
}

} // verus!
