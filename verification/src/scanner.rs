//! The scanner. It searches the input for signatures and passes every match
//! to the chunk carver.
//!
//! A scan is a single forward pass. Each search starts at the cursor. When a
//! signature is found, the image that follows it is carved, and the next
//! search starts at the position where the carver left the cursor.

use vstd::prelude::*;
use crate::carver::{carve, carve_from, lemma_carve_bounds, lemma_carve_end, CarveEnd};
use crate::format::{code_at, SIGNATURE_LEN};
use crate::probe::{find_signature, lemma_next_signature_bounds, next_signature};

verus! {

/// The mathematical view of a carved image.
pub struct ImageView {
    /// The value of the output counter when the image was started.
    pub id: nat,
    /// Offset of the image's signature in the input.
    pub offset: nat,
    /// The image.
    pub bytes: Seq<u8>,
    /// How carving ended.
    pub end: CarveEnd,
}

/// A carved image.
#[derive(Debug)]
pub struct CarvedImage {
    /// The value of the output counter when the image was started. The
    /// images of a scan are numbered from zero in the order in which they
    /// are found.
    pub id: u64,
    /// Offset of the image's signature in the input.
    pub offset: usize,
    /// The image: the signature followed by the chunks that were carried.
    pub bytes: Vec<u8>,
    /// How carving ended.
    pub end: CarveEnd,
}

impl View for CarvedImage {
    type V = ImageView;

    open spec fn view(&self) -> ImageView {
        ImageView {
            id: self.id as nat,
            offset: self.offset as nat,
            bytes: self.bytes@,
            end: self.end,
        }
    }
}

/// The views of a sequence of images.
pub open spec fn views(images: Seq<CarvedImage>) -> Seq<ImageView> {
    images.map_values(|image: CarvedImage| image@)
}

/// The image with number `id` whose signature lies at `offset`: the input
/// from the signature up to the offset at which the carver stops.
pub open spec fn image_at(input: Seq<u8>, offset: int, id: nat) -> ImageView {
    let carving = carve_from(input, offset + 8);
    ImageView {
        id,
        offset: offset as nat,
        bytes: input.subrange(offset, carving.stop),
        end: carving.end,
    }
}

/// The offset at which the scan continues after the image whose signature
/// lies at `offset`.
pub open spec fn resume_after(input: Seq<u8>, offset: int) -> int {
    carve_from(input, offset + 8).resume
}

/// The images found by a scan that starts at offset `from`, where the first
/// image receives the number `id`.
pub open spec fn scan_from(input: Seq<u8>, from: int, id: nat) -> Seq<ImageView>
    decreases input.len() - from,
    via scan_from_terminates
{
    match next_signature(input, from) {
        None => Seq::empty(),
        Some(offset) => seq![image_at(input, offset, id)] + scan_from(
            input,
            resume_after(input, offset),
            id + 1,
        ),
    }
}

#[via_fn]
proof fn scan_from_terminates(input: Seq<u8>, from: int, id: nat) {
    lemma_next_signature_bounds(input, from);
    if let Some(offset) = next_signature(input, from) {
        lemma_carve_bounds(input, offset + 8);
    }
}

/// The mathematical view of a scanner.
pub struct ScannerView {
    /// The bytes being scanned.
    pub input: Seq<u8>,
    /// Offset of the next probe.
    pub cursor: nat,
    /// Number of images started so far. The next image receives this number.
    pub counter: nat,
}

/// Whether a scan that found `images` was aborted because of a malformed
/// chunk type.
pub open spec fn aborted(images: Seq<ImageView>) -> bool {
    images.len() > 0 && images.last().end == CarveEnd::Malformed
}

/// The offset right after an image in the input. If the image is incomplete,
/// this is the offset of the chunk that ended it.
pub open spec fn end_of(image: ImageView) -> nat {
    image.offset + image.bytes.len()
}

/// The reason why a scan was aborted.
#[derive(Clone, Copy, Debug, PartialEq, Eq)]
pub enum ScanError {
    /// The type field of the chunk at `offset` contains a byte that is not
    /// ASCII. `code` is the content of the field.
    MalformedChunkType { offset: usize, code: [u8; 4] },
}

/// An aborted scan: the images carved up to that point and the reason for
/// the abort.
#[derive(Debug)]
pub struct ScanFailure {
    /// The images carved before the scan was aborted. The last one is the
    /// image that was in progress. It ends before the offending chunk.
    pub carved: Vec<CarvedImage>,
    /// The reason for the abort.
    pub error: ScanError,
}

/// The images returned by a scan, whether it succeeded or failed.
pub open spec fn carved_by(outcome: Result<Vec<CarvedImage>, ScanFailure>) -> Seq<ImageView> {
    match outcome {
        Ok(images) => views(images@),
        Err(failure) => views(failure.carved@),
    }
}

/// Whether `outcome` is the result of running a scan from `state`.
///
/// The images are those of [`scan_from`], in the same order. The scan fails
/// if and only if the last image ends at a malformed chunk type. In that
/// case the error reports the offset right after that image and the content
/// of the type field found there.
pub open spec fn is_outcome_of(
    outcome: Result<Vec<CarvedImage>, ScanFailure>,
    state: ScannerView,
) -> bool {
    let expected = scan_from(state.input, state.cursor as int, state.counter);
    &&& carved_by(outcome) == expected
    &&& outcome is Err <==> aborted(expected)
    &&& outcome matches Err(failure) ==> {
        &&& failure.error matches ScanError::MalformedChunkType { offset, code }
        &&& offset == end_of(expected.last())
        &&& code@ == code_at(state.input, offset as int)
    }
}

/// A scanner over a block of bytes. It owns the read cursor and the output
/// counter of a scan.
pub struct PNGScanner<'a> {
    input: &'a [u8],
    cursor: usize,
    output_counter: u64,
}

impl<'a> View for PNGScanner<'a> {
    type V = ScannerView;

    closed spec fn view(&self) -> ScannerView {
        ScannerView {
            input: self.input@,
            cursor: self.cursor as nat,
            counter: self.output_counter as nat,
        }
    }
}

impl<'a> PNGScanner<'a> {
    /// The cursor stays within the input, and every image started so far
    /// has consumed at least the eight bytes of its signature.
    #[verifier::type_invariant]
    spec fn within_input(self) -> bool {
        self.cursor <= self.input@.len() && 8 * self.output_counter <= self.cursor
    }

    /// Creates a scanner positioned at the start of `input`, with the output
    /// counter at zero.
    pub fn new(input: &'a [u8]) -> (scanner: PNGScanner<'a>)
        ensures
            scanner@ == (ScannerView { input: input@, cursor: 0, counter: 0 }),
    {
        PNGScanner { input, cursor: 0, output_counter: 0 }
    }

    /// Returns the offset of the next probe.
    pub fn cursor(&self) -> (cursor: usize)
        ensures
            cursor == self@.cursor,
            cursor <= self@.input.len(),
    {
        proof {
            use_type_invariant(self);
        }
        self.cursor
    }

    /// Returns the number of images started so far.
    pub fn output_counter(&self) -> (counter: u64)
        ensures
            counter == self@.counter,
            8 * counter <= self@.cursor,
    {
        proof {
            use_type_invariant(self);
        }
        self.output_counter
    }

    /// Finds the next signature and carves the image that follows it.
    ///
    /// Returns `None` and moves the cursor to the end of the input if no
    /// probe, starting at the cursor, lands on a signature. Otherwise the
    /// image receives the current value of the output counter as its number,
    /// the counter is incremented, and the cursor is moved to the offset at
    /// which the carver resumes.
    pub fn next_image(&mut self) -> (image: Option<CarvedImage>)
        ensures
            final(self)@.input == old(self)@.input,
            old(self)@.cursor <= final(self)@.cursor <= old(self)@.input.len(),
            match next_signature(old(self)@.input, old(self)@.cursor as int) {
                None => {
                    &&& image is None
                    &&& final(self)@.cursor == old(self)@.input.len()
                    &&& final(self)@.counter == old(self)@.counter
                },
                Some(offset) => {
                    &&& image matches Some(found)
                    &&& found@ == image_at(old(self)@.input, offset, old(self)@.counter)
                    &&& final(self)@.cursor == resume_after(old(self)@.input, offset)
                    &&& final(self)@.counter == old(self)@.counter + 1
                },
            },
    {
        proof {
            use_type_invariant(&*self);
            lemma_next_signature_bounds(self.input@, self.cursor as int);
        }
        let input = self.input;
        let len = input.len();
        match find_signature(input, self.cursor) {
            None => {
                self.cursor = len;
                None
            },
            Some(offset) => {
                let carved = carve(input, offset + SIGNATURE_LEN);
                proof {
                    lemma_carve_bounds(input@, offset + 8);
                    assert(carved.bytes@ =~= input@.subrange(
                        offset as int,
                        carve_from(input@, offset + 8).stop,
                    ));
                }
                let id = self.output_counter;
                self.cursor = carved.resume;
                self.output_counter = id + 1;
                Some(CarvedImage { id, offset, bytes: carved.bytes, end: carved.end })
            },
        }
    }

    /// Runs the scan to the end of the input and returns the images in the
    /// order in which they were found.
    ///
    /// The scan is aborted at the first chunk whose type field is not ASCII.
    /// In that case it fails and returns the images carved up to that point,
    /// together with the offset and the content of the offending field. On
    /// every other input it succeeds.
    pub fn scan(self) -> (outcome: Result<Vec<CarvedImage>, ScanFailure>)
        ensures
            is_outcome_of(outcome, self@),
    {
        let ghost all = scan_from(self@.input, self@.cursor as int, self@.counter);
        let input = self.input;
        let mut scanner = self;
        let mut images: Vec<CarvedImage> = Vec::new();
        loop
            invariant
                input@ == self@.input,
                scanner@.input == input@,
                all == scan_from(self@.input, self@.cursor as int, self@.counter),
                views(images@) + scan_from(input@, scanner@.cursor as int, scanner@.counter)
                    == all,
                forall|i: int| 0 <= i < images@.len() ==> images@[i].end != CarveEnd::Malformed,
            decreases input@.len() - scanner@.cursor,
        {
            let ghost before = scanner@;
            let ghost carved = views(images@);
            proof {
                lemma_next_signature_bounds(input@, before.cursor as int);
            }
            match scanner.next_image() {
                None => {
                    return Ok(images);
                },
                Some(image) => {
                    let ghost offset = image.offset as int;
                    let ghost rest = scan_from(input@, scanner@.cursor as int, scanner@.counter);
                    proof {
                        lemma_carve_bounds(input@, offset + 8);
                        lemma_carve_end(input@, offset + 8);
                        assert(views(images@.push(image)) =~= carved.push(image@));
                        assert(carved.push(image@) + rest =~= carved + (seq![image@] + rest));
                    }
                    let end = image.end;
                    let stop: usize = image.offset + image.bytes.len();
                    images.push(image);
                    match end {
                        CarveEnd::Malformed => {
                            let code: [u8; 4] = [
                                input[stop + 4],
                                input[stop + 5],
                                input[stop + 6],
                                input[stop + 7],
                            ];
                            assert(code@ =~= code_at(input@, stop as int));
                            return Err(
                                ScanFailure {
                                    carved: images,
                                    error: ScanError::MalformedChunkType { offset: stop, code },
                                },
                            );
                        },
                        _ => {},
                    }
                },
            }
        }
    }
}

} // verus!
