//! The parts of the PNG container format that carving depends on: the
//! signature at the start of an image and the header at the start of each
//! chunk.
//!
//! A chunk consists of a four-byte big-endian payload length, a four-byte
//! type code, the payload, and a four-byte checksum. The checksum is copied
//! along with the chunk and is never validated.

use vstd::prelude::*;

verus! {

/// Number of bytes in the signature.
pub const SIGNATURE_LEN: usize = 8;

/// Number of bytes in a chunk header: the length field and the type code.
pub const HEADER_LEN: usize = 8;

/// Number of bytes in the checksum at the end of a chunk.
pub const CRC_LEN: usize = 4;

/// The eight bytes at the start of every PNG image.
pub open spec fn signature() -> Seq<u8> {
    seq![0x89u8, 0x50u8, 0x4Eu8, 0x47u8, 0x0Du8, 0x0Au8, 0x1Au8, 0x0Au8]
}

/// Whether `input` contains the complete signature at offset `at`.
pub open spec fn signature_at(input: Seq<u8>, at: int) -> bool {
    &&& 0 <= at
    &&& at + 8 <= input.len()
    &&& input.subrange(at, at + 8) == signature()
}

/// Compares a probe window with the signature. A window that is not exactly
/// eight bytes long never matches.
pub fn is_signature(window: &[u8]) -> (matches: bool)
    ensures
        matches == (window@ == signature()),
{
    if window.len() != SIGNATURE_LEN {
        return false;
    }
    let matches = window[0] == 0x89 && window[1] == 0x50 && window[2] == 0x4E && window[3] == 0x47
        && window[4] == 0x0D && window[5] == 0x0A && window[6] == 0x1A && window[7] == 0x0A;
    proof {
        let s = signature();
        if matches {
            assert(window@ =~= s);
        }
    }
    matches
}

/// Appends the signature to `out`.
pub fn push_signature(out: &mut Vec<u8>)
    ensures
        final(out)@ == old(out)@ + signature(),
{
    out.push(0x89);
    out.push(0x50);
    out.push(0x4E);
    out.push(0x47);
    out.push(0x0D);
    out.push(0x0A);
    out.push(0x1A);
    out.push(0x0A);
}

/// The classification of a chunk by its type code.
#[derive(Clone, Copy, Debug, PartialEq, Eq, Structural)]
pub enum ChunkKind {
    /// `IHDR`, the image header.
    Header,
    /// `PLTE`, the palette.
    Palette,
    /// `IDAT`, image data.
    Data,
    /// `tRNS`, transparency.
    Transparency,
    /// `IEND`, the end of the image.
    Terminal,
    /// Any other code.
    Unrecognized,
}

impl ChunkKind {
    /// A carried chunk is copied into the carved image. Every kind is carried
    /// except `Unrecognized`, which ends the image.
    pub open spec fn carried(self) -> bool {
        self != ChunkKind::Unrecognized
    }

    /// Returns whether chunks of this kind are copied into the carved image.
    pub fn is_carried(&self) -> (b: bool)
        ensures
            b == self.carried(),
    {
        match self {
            ChunkKind::Unrecognized => false,
            _ => true,
        }
    }

    /// Returns whether this is the kind of the chunk that completes an image.
    pub fn is_terminal(&self) -> (b: bool)
        ensures
            b == (*self == ChunkKind::Terminal),
    {
        match self {
            ChunkKind::Terminal => true,
            _ => false,
        }
    }
}

/// Whether `code` consists of exactly the four bytes `a`, `b`, `c`, `d`.
pub open spec fn is_code(code: Seq<u8>, a: u8, b: u8, c: u8, d: u8) -> bool {
    code.len() == 4 && code[0] == a && code[1] == b && code[2] == c && code[3] == d
}

/// The kind denoted by a type code. Codes are compared byte by byte, so the
/// comparison is case-sensitive.
pub open spec fn kind_of(code: Seq<u8>) -> ChunkKind {
    if is_code(code, 0x49, 0x48, 0x44, 0x52) {
        ChunkKind::Header
    } else if is_code(code, 0x50, 0x4C, 0x54, 0x45) {
        ChunkKind::Palette
    } else if is_code(code, 0x49, 0x44, 0x41, 0x54) {
        ChunkKind::Data
    } else if is_code(code, 0x74, 0x52, 0x4E, 0x53) {
        ChunkKind::Transparency
    } else if is_code(code, 0x49, 0x45, 0x4E, 0x44) {
        ChunkKind::Terminal
    } else {
        ChunkKind::Unrecognized
    }
}

/// Classifies a type code.
pub fn classify(code: &[u8; 4]) -> (kind: ChunkKind)
    ensures
        kind == kind_of(code@),
{
    let a = code[0];
    let b = code[1];
    let c = code[2];
    let d = code[3];
    if a == 0x49 && b == 0x48 && c == 0x44 && d == 0x52 {
        ChunkKind::Header
    } else if a == 0x50 && b == 0x4C && c == 0x54 && d == 0x45 {
        ChunkKind::Palette
    } else if a == 0x49 && b == 0x44 && c == 0x41 && d == 0x54 {
        ChunkKind::Data
    } else if a == 0x74 && b == 0x52 && c == 0x4E && d == 0x53 {
        ChunkKind::Transparency
    } else if a == 0x49 && b == 0x45 && c == 0x4E && d == 0x44 {
        ChunkKind::Terminal
    } else {
        ChunkKind::Unrecognized
    }
}

/// Whether every byte of `code` is an ASCII character.
pub open spec fn ascii(code: Seq<u8>) -> bool {
    forall|i: int| 0 <= i < code.len() ==> code[i] < 0x80
}

/// The value of four bytes read as a big-endian number.
pub open spec fn be_u32(bytes: Seq<u8>) -> nat
    recommends
        bytes.len() == 4,
{
    (bytes[0] * 0x100_0000 + bytes[1] * 0x1_0000 + bytes[2] * 0x100 + bytes[3]) as nat
}

/// The length field of the chunk header at offset `at`.
pub open spec fn length_at(input: Seq<u8>, at: int) -> nat {
    be_u32(input.subrange(at, at + 4))
}

/// The type code of the chunk header at offset `at`.
pub open spec fn code_at(input: Seq<u8>, at: int) -> Seq<u8> {
    input.subrange(at + 4, at + 8)
}

/// A chunk header read from the input.
#[derive(Clone, Copy, Debug, PartialEq, Eq)]
pub struct ChunkHeader {
    /// Number of payload bytes. The header and the checksum are not counted.
    pub length: u32,
    /// The type code.
    pub code: [u8; 4],
}

/// The reason why a chunk header could not be read.
#[derive(Clone, Copy, Debug, PartialEq, Eq)]
pub enum HeaderError {
    /// Fewer than eight bytes remain in the input.
    Incomplete,
    /// The type field contains a byte that is not ASCII.
    MalformedType { code: [u8; 4] },
}

/// Reads the chunk header at offset `at`.
///
/// The header is incomplete if fewer than eight bytes follow `at`, and its
/// type is malformed if any of the four type bytes is not ASCII. In every
/// other case the header is returned exactly as it appears in the input.
pub fn read_chunk_header(input: &[u8], at: usize) -> (r: Result<ChunkHeader, HeaderError>)
    ensures
        match r {
            Ok(header) => {
                &&& at + 8 <= input@.len()
                &&& ascii(code_at(input@, at as int))
                &&& header.length == length_at(input@, at as int)
                &&& header.code@ == code_at(input@, at as int)
            },
            Err(HeaderError::Incomplete) => at + 8 > input@.len(),
            Err(HeaderError::MalformedType { code }) => {
                &&& at + 8 <= input@.len()
                &&& !ascii(code_at(input@, at as int))
                &&& code@ == code_at(input@, at as int)
            },
        },
{
    let len = input.len();
    if at > len || len - at < HEADER_LEN {
        return Err(HeaderError::Incomplete);
    }
    let length: u32 = (input[at] as u32) * 0x100_0000 + (input[at + 1] as u32) * 0x1_0000 + (
    input[at + 2] as u32) * 0x100 + (input[at + 3] as u32);
    let code: [u8; 4] = [input[at + 4], input[at + 5], input[at + 6], input[at + 7]];
    assert(code@ =~= code_at(input@, at as int));
    if code[0] < 0x80 && code[1] < 0x80 && code[2] < 0x80 && code[3] < 0x80 {
        Ok(ChunkHeader { length, code })
    } else {
        Err(HeaderError::MalformedType { code })
    }
}

/// A chunk as a mathematical value, field by field.
pub struct Chunk {
    /// The four bytes of the length field.
    pub length: Seq<u8>,
    /// The four bytes of the type code.
    pub code: Seq<u8>,
    /// The payload.
    pub payload: Seq<u8>,
    /// The four bytes of the checksum. Their value is arbitrary.
    pub crc: Seq<u8>,
}

impl Chunk {
    /// Every field has its proper size, and the length field holds the size
    /// of the payload.
    pub open spec fn well_formed(self) -> bool {
        &&& self.length.len() == 4
        &&& self.code.len() == 4
        &&& self.crc.len() == 4
        &&& be_u32(self.length) == self.payload.len()
    }

    /// The kind denoted by the chunk's type code.
    pub open spec fn kind(self) -> ChunkKind {
        kind_of(self.code)
    }

    /// The encoding of the chunk: length, type code, payload, checksum.
    pub open spec fn bytes(self) -> Seq<u8> {
        self.length + self.code + self.payload + self.crc
    }
}

/// The encoding of a sequence of chunks, one after another.
pub open spec fn chunk_stream(chunks: Seq<Chunk>) -> Seq<u8>
    decreases chunks.len(),
{
    if chunks.len() == 0 {
        Seq::empty()
    } else {
        chunks[0].bytes() + chunk_stream(chunks.drop_first())
    }
}

/// Each of the five recognized type codes consists of ASCII letters.
pub proof fn lemma_carried_code_is_ascii(code: Seq<u8>)
    requires
        kind_of(code).carried(),
    ensures
        ascii(code),
{
}

/// If the encoding of a well-formed chunk occupies the input at offset `at`,
/// then the header read at `at` is the header of that chunk.
pub proof fn lemma_chunk_in_place(input: Seq<u8>, at: int, chunk: Chunk)
    requires
        chunk.well_formed(),
        0 <= at,
        at + chunk.bytes().len() <= input.len(),
        input.subrange(at, at + chunk.bytes().len()) == chunk.bytes(),
    ensures
        chunk.bytes().len() == 12 + chunk.payload.len(),
        length_at(input, at) == chunk.payload.len(),
        code_at(input, at) == chunk.code,
{
    let bytes = chunk.bytes();
    assert forall|i: int| 0 <= i < bytes.len() implies input[at + i] == bytes[i] by {
        assert(input.subrange(at, at + bytes.len())[i] == input[at + i]);
    }
    assert(input.subrange(at, at + 4) =~= chunk.length);
    assert(code_at(input, at) =~= chunk.code) by {
        assert forall|i: int| 0 <= i < 4 implies code_at(input, at)[i] == chunk.code[i] by {
            assert(bytes[4 + i] == chunk.code[i]);
        }
    }
}

} // verus!
