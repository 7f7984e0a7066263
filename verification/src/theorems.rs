//! Theorems about scanning and carving: which signatures a scan finds and
//! which it misses, what a carved image contains, and in which order the
//! images of a scan appear.

use vstd::prelude::*;
use crate::carver::{
    carve_from, chunk_at, chunks_taken, least, lemma_carve_bounds, lemma_carve_end, takes_chunk,
    CarveEnd, Carving,
};
use crate::format::{
    ascii, be_u32, chunk_stream, code_at, kind_of, lemma_carried_code_is_ascii,
    lemma_chunk_in_place, length_at, signature, signature_at, Chunk, ChunkKind,
};
use crate::probe::{
    lemma_found_signature_is_first_on_probe, lemma_next_signature_bounds,
    lemma_signature_on_probe_is_found, next_signature, no_signature_on_probe, probe, PROBE_STRIDE,
};
use crate::scanner::{
    carved_by, image_at, is_outcome_of, resume_after, scan_from, CarvedImage, ImageView,
    ScanError, ScanFailure, ScannerView,
};

verus! {

// Carving

/// Whether every chunk of a sequence is well formed, carried, and not the
/// terminal chunk.
pub open spec fn carried_sequence(chunks: Seq<Chunk>) -> bool {
    forall|i: int|
        0 <= i < chunks.len() ==> {
            &&& (#[trigger] chunks[i]).well_formed()
            &&& chunks[i].kind().carried()
            &&& chunks[i].kind() != ChunkKind::Terminal
        }
}

/// The carver passes over a sequence of carried chunks: carving from the
/// start of the sequence has the same result as carving from its end.
pub proof fn lemma_carve_passes_carried_chunks(input: Seq<u8>, at: int, chunks: Seq<Chunk>)
    requires
        carried_sequence(chunks),
        0 <= at,
        at + chunk_stream(chunks).len() <= input.len(),
        input.subrange(at, at + chunk_stream(chunks).len()) == chunk_stream(chunks),
    ensures
        carve_from(input, at) == carve_from(input, at + chunk_stream(chunks).len()),
    decreases chunks.len(),
{
    if chunks.len() > 0 {
        let first = chunks[0];
        let tail = chunks.drop_first();
        let stream = chunk_stream(chunks);
        let next = at + first.bytes().len();
        assert(input.subrange(at, next) =~= first.bytes());
        assert(input.subrange(next, next + chunk_stream(tail).len()) =~= chunk_stream(tail)) by {
            assert forall|i: int| 0 <= i < chunk_stream(tail).len() implies input.subrange(
                next,
                next + chunk_stream(tail).len(),
            )[i] == chunk_stream(tail)[i] by {
                assert(input.subrange(at, at + stream.len())[first.bytes().len() + i]
                    == stream[first.bytes().len() + i]);
            }
        }
        lemma_chunk_in_place(input, at, first);
        lemma_carried_code_is_ascii(first.code);
        lemma_carve_passes_carried_chunks(input, next, tail);
    }
}

/// If the input contains a sequence of carried chunks followed by the
/// terminal chunk, carving from the start of the sequence takes all of them
/// and ends right after the terminal chunk.
pub proof fn lemma_carve_takes_whole_image(
    input: Seq<u8>,
    at: int,
    chunks: Seq<Chunk>,
    terminal: Chunk,
)
    requires
        carried_sequence(chunks),
        terminal.well_formed(),
        terminal.kind() == ChunkKind::Terminal,
        0 <= at,
        at + chunk_stream(chunks).len() + terminal.bytes().len() <= input.len(),
        input.subrange(at, at + chunk_stream(chunks).len()) == chunk_stream(chunks),
        input.subrange(
            at + chunk_stream(chunks).len(),
            at + chunk_stream(chunks).len() + terminal.bytes().len(),
        ) == terminal.bytes(),
    ensures
        ({
            let stop = at + chunk_stream(chunks).len() + terminal.bytes().len();
            carve_from(input, at) == (Carving { stop, resume: stop, end: CarveEnd::Terminal })
        }),
{
    let next = at + chunk_stream(chunks).len();
    lemma_carve_passes_carried_chunks(input, at, chunks);
    lemma_chunk_in_place(input, next, terminal);
    lemma_carried_code_is_ascii(terminal.code);
}

/// If the input contains a sequence of carried chunks followed by a complete
/// header whose type code is ASCII but not recognized, carving from the
/// start of the sequence ends right before that header.
pub proof fn lemma_carve_stops_at_unrecognized(input: Seq<u8>, at: int, chunks: Seq<Chunk>)
    requires
        carried_sequence(chunks),
        0 <= at,
        at + chunk_stream(chunks).len() + 8 <= input.len(),
        input.subrange(at, at + chunk_stream(chunks).len()) == chunk_stream(chunks),
        ascii(code_at(input, at + chunk_stream(chunks).len())),
        !kind_of(code_at(input, at + chunk_stream(chunks).len())).carried(),
    ensures
        ({
            let stop = at + chunk_stream(chunks).len();
            carve_from(input, at) == (Carving {
                stop,
                resume: least(stop + 8 + length_at(input, stop), input.len() as int),
                end: CarveEnd::Unrecognized,
            })
        }),
{
    lemma_carve_passes_carried_chunks(input, at, chunks);
}

/// The carver copies a sequence of complete chunks.
///
/// The bytes from `at` up to the offset at which carving stops are the
/// encoding of the chunks that the carver takes. Each of these chunks is well
/// formed and of a carried kind. Only the last one can be the terminal chunk,
/// and it is the terminal chunk if and only if carving ended there.
pub proof fn lemma_carved_bytes_are_chunks(input: Seq<u8>, at: int)
    requires
        0 <= at <= input.len(),
    ensures
        ({
            let taken = chunks_taken(input, at);
            let carving = carve_from(input, at);
            &&& input.subrange(at, carving.stop) == chunk_stream(taken)
            &&& forall|i: int|
                0 <= i < taken.len() ==> (#[trigger] taken[i]).well_formed()
                    && taken[i].kind().carried()
            &&& forall|i: int|
                0 <= i < taken.len() - 1 ==> (#[trigger] taken[i]).kind() != ChunkKind::Terminal
            &&& carving.end == CarveEnd::Terminal <==> taken.len() > 0 && taken.last().kind()
                == ChunkKind::Terminal
        }),
    decreases input.len() - at,
{
    let taken = chunks_taken(input, at);
    let carving = carve_from(input, at);
    if takes_chunk(input, at) {
        let next = at + 12 + length_at(input, at);
        if kind_of(code_at(input, at)) == ChunkKind::Terminal {
            assert(chunk_stream(taken.drop_first()) =~= Seq::<u8>::empty());
        } else {
            lemma_carved_bytes_are_chunks(input, next);
            lemma_carve_bounds(input, next);
            assert(taken.drop_first() =~= chunks_taken(input, next));
            assert(input.subrange(at, carving.stop) =~= input.subrange(at, next) + input.subrange(
                next,
                carving.stop,
            ));
        }
    }
}

// Scanning

/// A scan consists of its first image followed by the scan that starts at
/// the offset where the carver resumes after that image.
pub proof fn lemma_scan_step(input: Seq<u8>, from: int, id: nat)
    requires
        next_signature(input, from) is Some,
    ensures
        ({
            let offset = next_signature(input, from).unwrap();
            let found = scan_from(input, from, id);
            &&& found.len() > 0
            &&& found[0] == image_at(input, offset, id)
            &&& found.skip(1) == scan_from(input, resume_after(input, offset), id + 1)
        }),
{
}

/// The first image of a scan is the image at the first probe that lands on
/// a signature.
pub proof fn lemma_signature_on_probe_is_carved(input: Seq<u8>, from: int, id: nat, k: nat)
    requires
        0 <= from,
        signature_at(input, probe(from, k)),
        forall|j: nat| j < k ==> !signature_at(input, #[trigger] probe(from, j)),
    ensures
        scan_from(input, from, id).len() > 0,
        scan_from(input, from, id)[0] == image_at(input, probe(from, k), id),
        scan_from(input, from, id).skip(1) == scan_from(
            input,
            resume_after(input, probe(from, k)),
            id + 1,
        ),
{
    lemma_signature_on_probe_is_found(input, from, k);
    lemma_scan_step(input, from, id);
}

/// If no probe of a search lands on a signature, the scan yields no image,
/// regardless of what the input contains between the probes.
pub proof fn lemma_no_signature_on_probe_no_image(input: Seq<u8>, from: int, id: nat)
    requires
        no_signature_on_probe(input, from),
    ensures
        scan_from(input, from, id) == Seq::<ImageView>::empty(),
{
    if next_signature(input, from) is Some {
        lemma_found_signature_is_first_on_probe(input, from);
    }
}

// Images embedded in padding

/// If the input starts with padding whose length is a multiple of the stride
/// and which contains no signature at a multiple of the stride, and the
/// signature follows the padding directly, then the scan finds that
/// signature first.
proof fn lemma_signature_after_padding_is_found(input: Seq<u8>, padding: Seq<u8>)
    requires
        padding.len() % (PROBE_STRIDE as nat) == 0,
        no_signature_on_probe(padding, 0),
        padding.len() + 8 <= input.len(),
        input.subrange(0, padding.len() as int) == padding,
        input.subrange(padding.len() as int, padding.len() as int + 8) == signature(),
    ensures
        next_signature(input, 0) == Some(padding.len() as int),
{
    let k = (padding.len() / 4096) as nat;
    assert forall|j: nat| j < k implies !signature_at(input, #[trigger] probe(0, j)) by {
        let p = probe(0, j);
        assert(input.subrange(p, p + 8) =~= input.subrange(0, padding.len() as int).subrange(
            p,
            p + 8,
        ));
    }
    lemma_signature_on_probe_is_found(input, 0, k);
}

/// Locates the parts of an input that is composed of padding, the signature,
/// a chunk stream, one further piece, and a remainder.
proof fn lemma_parts_in_place(
    input: Seq<u8>,
    padding: Seq<u8>,
    stream: Seq<u8>,
    piece: Seq<u8>,
    rest: Seq<u8>,
)
    requires
        input == padding + signature() + stream + piece + rest,
    ensures
        ({
            let offset = padding.len() as int;
            let at = offset + 8;
            let next = at + stream.len();
            let end = next + piece.len();
            &&& input.len() == end + rest.len()
            &&& input.subrange(0, offset) == padding
            &&& input.subrange(offset, at) == signature()
            &&& input.subrange(at, next) == stream
            &&& input.subrange(next, end) == piece
            &&& input.subrange(offset, next) == signature() + stream
            &&& input.subrange(offset, end) == signature() + stream + piece
        }),
{
}

/// If a chunk header occupies the input at offset `at`, then the length and
/// the type code read at `at` are those of the header.
proof fn lemma_header_in_place(input: Seq<u8>, at: int, header: Seq<u8>)
    requires
        header.len() == 8,
        0 <= at,
        at + 8 <= input.len(),
        input.subrange(at, at + 8) == header,
    ensures
        length_at(input, at) == be_u32(header.subrange(0, 4)),
        code_at(input, at) == header.subrange(4, 8),
{
}

/// If the scan from the start of the input finds its first signature at
/// `offset`, then its first image is the result of carving at that offset.
proof fn lemma_first_image(
    input: Seq<u8>,
    offset: int,
    image: Seq<u8>,
    carving: Carving,
    id: nat,
)
    requires
        next_signature(input, 0) == Some(offset),
        carve_from(input, offset + 8) == carving,
        input.subrange(offset, carving.stop) == image,
    ensures
        ({
            let found = scan_from(input, 0, id);
            &&& found.len() > 0
            &&& found[0] == (ImageView {
                id,
                offset: offset as nat,
                bytes: image,
                end: carving.end,
            })
            &&& found.skip(1) == scan_from(input, carving.resume, id + 1)
        }),
{
    lemma_next_signature_bounds(input, 0);
    lemma_scan_step(input, 0, id);
}

/// If the scan from the start of the input finds its first signature at
/// `offset`, and the signature is followed by a sequence of carried chunks
/// and then by a header of an unrecognized type, then the first image ends
/// right before that header.
proof fn lemma_cut_image_is_first(input: Seq<u8>, offset: int, chunks: Seq<Chunk>, id: nat)
    requires
        carried_sequence(chunks),
        next_signature(input, 0) == Some(offset),
        offset + 8 + chunk_stream(chunks).len() + 8 <= input.len(),
        input.subrange(offset + 8, offset + 8 + chunk_stream(chunks).len()) == chunk_stream(
            chunks,
        ),
        ascii(code_at(input, offset + 8 + chunk_stream(chunks).len())),
        !kind_of(code_at(input, offset + 8 + chunk_stream(chunks).len())).carried(),
    ensures
        ({
            let found = scan_from(input, 0, id);
            let stop = offset + 8 + chunk_stream(chunks).len();
            &&& found.len() > 0
            &&& found[0] == (ImageView {
                id,
                offset: offset as nat,
                bytes: input.subrange(offset, stop),
                end: CarveEnd::Unrecognized,
            })
            &&& found.skip(1) == scan_from(
                input,
                least(stop + 8 + length_at(input, stop), input.len() as int),
                id + 1,
            )
        }),
{
    let stop = offset + 8 + chunk_stream(chunks).len();
    let carving = Carving {
        stop,
        resume: least(stop + 8 + length_at(input, stop), input.len() as int),
        end: CarveEnd::Unrecognized,
    };
    lemma_next_signature_bounds(input, 0);
    lemma_carve_stops_at_unrecognized(input, offset + 8, chunks);
    lemma_first_image(input, offset, input.subrange(offset, stop), carving, id);
}

/// A well-formed image is extracted unchanged.
///
/// The image consists of the signature, a sequence of carried chunks, and
/// the terminal chunk. The checksums are arbitrary. In the input, the image
/// is preceded by padding whose length is a multiple of the stride and which
/// contains no signature at a multiple of the stride, and it may be followed
/// by anything. Then the first image of the scan is identical to this image,
/// it is complete, and the scan continues right after it.
pub proof fn lemma_round_trip(
    padding: Seq<u8>,
    chunks: Seq<Chunk>,
    terminal: Chunk,
    rest: Seq<u8>,
    id: nat,
)
    requires
        padding.len() % (PROBE_STRIDE as nat) == 0,
        no_signature_on_probe(padding, 0),
        carried_sequence(chunks),
        terminal.well_formed(),
        terminal.kind() == ChunkKind::Terminal,
    ensures
        ({
            let image = signature() + chunk_stream(chunks) + terminal.bytes();
            let input = padding + image + rest;
            let found = scan_from(input, 0, id);
            &&& found.len() > 0
            &&& found[0] == (ImageView {
                id,
                offset: padding.len(),
                bytes: image,
                end: CarveEnd::Terminal,
            })
            &&& found.skip(1) == scan_from(input, (padding.len() + image.len()) as int, id + 1)
        }),
{
    let stream = chunk_stream(chunks);
    let image = signature() + stream + terminal.bytes();
    let input = padding + image + rest;
    let offset = padding.len() as int;
    let stop = offset + image.len();
    let carving = Carving { stop, resume: stop, end: CarveEnd::Terminal };
    assert(input == padding + signature() + stream + terminal.bytes() + rest);
    lemma_parts_in_place(input, padding, stream, terminal.bytes(), rest);
    lemma_signature_after_padding_is_found(input, padding);
    lemma_carve_takes_whole_image(input, offset + 8, chunks, terminal);
    lemma_first_image(input, offset, image, carving, id);
}

/// A chunk of an unrecognized type truncates the image.
///
/// After padding as in [`lemma_round_trip`], the input contains the
/// signature, a sequence of carried chunks, and a chunk header whose type
/// code is ASCII but not one of the recognized codes. No matter what follows
/// the header, the first image of the scan consists of the signature and the
/// carried chunks only. The scan continues after the payload declared by the
/// header, or at the end of the input if the payload extends past it.
pub proof fn lemma_unrecognized_chunk_ends_image(
    padding: Seq<u8>,
    chunks: Seq<Chunk>,
    header: Seq<u8>,
    rest: Seq<u8>,
    id: nat,
)
    requires
        padding.len() % (PROBE_STRIDE as nat) == 0,
        no_signature_on_probe(padding, 0),
        carried_sequence(chunks),
        header.len() == 8,
        ascii(header.subrange(4, 8)),
        !kind_of(header.subrange(4, 8)).carried(),
    ensures
        ({
            let image = signature() + chunk_stream(chunks);
            let input = padding + image + header + rest;
            let found = scan_from(input, 0, id);
            let declared = be_u32(header.subrange(0, 4));
            &&& found.len() > 0
            &&& found[0] == (ImageView {
                id,
                offset: padding.len(),
                bytes: image,
                end: CarveEnd::Unrecognized,
            })
            &&& found.skip(1) == scan_from(
                input,
                least((padding.len() + image.len() + 8 + declared) as int, input.len() as int),
                id + 1,
            )
        }),
{
    let stream = chunk_stream(chunks);
    let image = signature() + stream;
    let input = padding + image + header + rest;
    let offset = padding.len() as int;
    assert(input == padding + signature() + stream + header + rest);
    lemma_parts_in_place(input, padding, stream, header, rest);
    lemma_signature_after_padding_is_found(input, padding);
    lemma_header_in_place(input, offset + 8 + stream.len(), header);
    lemma_cut_image_is_first(input, offset, chunks, id);
}

// The images of a scan

/// The cursor at which the search for the `i`-th image of a scan starts. For
/// the first image this is the start of the scan. For every other image it
/// is the offset at which the carver resumed after the preceding image.
pub open spec fn cursor_before(input: Seq<u8>, from: int, i: nat) -> int
    decreases i,
{
    if i == 0 {
        from
    } else {
        match next_signature(input, from) {
            Some(offset) => cursor_before(input, resume_after(input, offset), (i - 1) as nat),
            None => from,
        }
    }
}

/// Describes each image of a scan individually.
///
/// The `i`-th image is located at the first probe that lands on a signature
/// when the search starts at the cursor left by the preceding image. It is
/// the result of carving at that offset, its number is `id + i`, and the
/// images from the `i`-th onward are the scan that starts at that cursor.
pub proof fn lemma_image_in_scan(input: Seq<u8>, from: int, id: nat, i: int)
    requires
        0 <= i < scan_from(input, from, id).len(),
    ensures
        ({
            let found = scan_from(input, from, id);
            let cursor = cursor_before(input, from, i as nat);
            &&& next_signature(input, cursor) == Some(found[i].offset as int)
            &&& found[i] == image_at(input, found[i].offset as int, (id + i) as nat)
            &&& found.skip(i) == scan_from(input, cursor, (id + i) as nat)
        }),
    decreases i,
{
    let found = scan_from(input, from, id);
    lemma_scan_step(input, from, id);
    lemma_next_signature_bounds(input, from);
    if i > 0 {
        let offset = next_signature(input, from).unwrap();
        let resume = resume_after(input, offset);
        let others = scan_from(input, resume, id + 1);
        lemma_image_in_scan(input, resume, id + 1, i - 1);
        assert(found.skip(i) =~= others.skip(i - 1));
    }
}

/// The images of a scan are numbered consecutively: the number of the `i`-th
/// image is the number of the first image plus `i`.
pub proof fn lemma_images_are_numbered_in_order(input: Seq<u8>, from: int, id: nat, i: int)
    requires
        0 <= i < scan_from(input, from, id).len(),
    ensures
        scan_from(input, from, id)[i].id == id + i,
{
    lemma_image_in_scan(input, from, id, i);
}

/// Every image is a contiguous slice of the input that starts with the
/// signature at the offset of the image.
pub proof fn lemma_image_is_piece_of_input(input: Seq<u8>, from: int, id: nat, i: int)
    requires
        0 <= from,
        0 <= i < scan_from(input, from, id).len(),
    ensures
        ({
            let image = scan_from(input, from, id)[i];
            &&& image.bytes.len() >= 8
            &&& image.offset + image.bytes.len() <= input.len()
            &&& image.bytes == input.subrange(
                image.offset as int,
                (image.offset + image.bytes.len()) as int,
            )
            &&& image.bytes.subrange(0, 8) == signature()
        }),
{
    let image = scan_from(input, from, id)[i];
    let offset = image.offset as int;
    lemma_image_in_scan(input, from, id, i);
    lemma_next_signature_bounds(input, cursor_before(input, from, i as nat));
    lemma_carve_bounds(input, offset + 8);
}

/// A scan is a single forward pass: every image starts at or after the end
/// of each image found before it. Images therefore appear in the order of
/// their offsets and do not overlap.
pub proof fn lemma_images_come_in_order(input: Seq<u8>, from: int, id: nat, i: int, j: int)
    requires
        0 <= from,
        0 <= i < j < scan_from(input, from, id).len(),
    ensures
        ({
            let found = scan_from(input, from, id);
            found[i].offset + found[i].bytes.len() <= found[j].offset
        }),
    decreases j - i,
{
    let found = scan_from(input, from, id);
    if i + 1 < j {
        lemma_images_come_in_order(input, from, id, i + 1, j);
        lemma_images_come_in_order(input, from, id, i, i + 1);
    } else {
        let offset = found[i].offset as int;
        let cursor = cursor_before(input, from, i as nat);
        let resume = resume_after(input, offset);
        lemma_image_in_scan(input, from, id, i);
        lemma_next_signature_bounds(input, cursor);
        lemma_carve_bounds(input, offset + 8);
        lemma_scan_step(input, cursor, (id + i) as nat);
        let later = scan_from(input, resume, (id + i + 1) as nat);
        assert(later[0] == found.skip(i).skip(1)[0]);
        lemma_scan_step(input, resume, (id + i + 1) as nat);
        lemma_next_signature_bounds(input, resume);
    }
}

/// After an image, probing starts again at the offset where the carver
/// resumed: the first probe from there that lands on a signature starts the
/// next image.
pub proof fn lemma_signature_after_image_is_carved(
    input: Seq<u8>,
    from: int,
    id: nat,
    i: int,
    k: nat,
)
    requires
        0 <= from,
        0 <= i < scan_from(input, from, id).len(),
        ({
            let resume = resume_after(input, scan_from(input, from, id)[i].offset as int);
            &&& signature_at(input, probe(resume, k))
            &&& forall|j: nat| j < k ==> !signature_at(input, #[trigger] probe(resume, j))
        }),
    ensures
        ({
            let found = scan_from(input, from, id);
            let resume = resume_after(input, found[i].offset as int);
            &&& i + 1 < found.len()
            &&& found[i + 1] == image_at(input, probe(resume, k), (id + i + 1) as nat)
        }),
{
    let found = scan_from(input, from, id);
    let offset = found[i].offset as int;
    let resume = resume_after(input, offset);
    let cursor = cursor_before(input, from, i as nat);
    lemma_image_in_scan(input, from, id, i);
    lemma_next_signature_bounds(input, cursor);
    lemma_carve_bounds(input, offset + 8);
    lemma_scan_step(input, cursor, (id + i) as nat);
    lemma_signature_on_probe_is_carved(input, resume, (id + i + 1) as nat, k);
    assert(found.skip(i).skip(1)[0] == found[i + 1]);
}

/// A scan from the start of the input misses a signature that is not aligned
/// to the stride, unless an image found earlier has shifted the probes: if
/// no multiple of the stride below `offset` contains a signature, and
/// `offset` itself is not a multiple of the stride, then no image starts at
/// `offset`.
pub proof fn lemma_signature_off_stride_is_missed(input: Seq<u8>, offset: int, id: nat, i: int)
    requires
        offset % (PROBE_STRIDE as int) != 0,
        forall|k: nat| probe(0, k) < offset ==> !signature_at(input, #[trigger] probe(0, k)),
        0 <= i < scan_from(input, 0, id).len(),
    ensures
        scan_from(input, 0, id)[i].offset != offset,
{
    let found = scan_from(input, 0, id);
    lemma_image_in_scan(input, 0, id, 0);
    let k = lemma_found_signature_is_first_on_probe(input, 0);
    assert(probe(0, k) % 4096 == 0) by (nonlinear_arith)
        requires
            probe(0, k) == k * 4096,
    ;
    assert(found[0].offset > offset);
    if i > 0 {
        lemma_images_come_in_order(input, 0, id, 0, i);
    }
}

/// An image that ends at a malformed chunk type is the last image of its
/// scan.
pub proof fn lemma_malformed_image_is_last(input: Seq<u8>, from: int, id: nat, i: int)
    requires
        0 <= from,
        0 <= i < scan_from(input, from, id).len(),
        scan_from(input, from, id)[i].end == CarveEnd::Malformed,
    ensures
        i + 1 == scan_from(input, from, id).len(),
{
    let found = scan_from(input, from, id);
    let offset = found[i].offset as int;
    let cursor = cursor_before(input, from, i as nat);
    lemma_image_in_scan(input, from, id, i);
    lemma_next_signature_bounds(input, cursor);
    lemma_carve_end(input, offset + 8);
    lemma_scan_step(input, cursor, (id + i) as nat);
    assert(found.skip(i).skip(1).len() == 0);
}

// Outcomes

/// If no probe lands on a signature, the scan succeeds and returns no image.
/// This covers the empty input in particular.
pub proof fn lemma_scan_without_signature_is_empty(
    state: ScannerView,
    outcome: Result<Vec<CarvedImage>, ScanFailure>,
)
    requires
        is_outcome_of(outcome, state),
        no_signature_on_probe(state.input, state.cursor as int),
    ensures
        outcome is Ok,
        carved_by(outcome).len() == 0,
{
    lemma_no_signature_on_probe_no_image(state.input, state.cursor as int, state.counter);
}

/// Scanning is repeatable: two scans from the same state return the same
/// images, and either both succeed or both fail with the same error.
pub proof fn lemma_scan_is_repeatable(
    state: ScannerView,
    first: Result<Vec<CarvedImage>, ScanFailure>,
    second: Result<Vec<CarvedImage>, ScanFailure>,
)
    requires
        is_outcome_of(first, state),
        is_outcome_of(second, state),
    ensures
        carved_by(first) == carved_by(second),
        first is Ok <==> second is Ok,
        first matches Err(a) ==> second matches Err(b) && a.error == b.error,
{
    if let Err(a) = first {
        let b = second->Err_0;
        match (a.error, b.error) {
            (
                ScanError::MalformedChunkType { offset: _, code: code_a },
                ScanError::MalformedChunkType { offset: _, code: code_b },
            ) => {
                assert(code_a =~= code_b);
            },
        }
    }
}

} // verus!
