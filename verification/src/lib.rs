//! Carving of PNG images out of arbitrary binary data, such as disk images
//! or memory dumps.
//!
//! A scan probes the input for the PNG signature at a fixed stride. After
//! each signature it walks the chunk stream and copies the image, up to and
//! including the terminal chunk. Every image found is returned together
//! with its number, its offset in the input, and the way in which it ended.
//!
//! Incomplete images are handled as follows:
//!
//! - A chunk of an unrecognized type ends the image. The image is returned
//!   without that chunk, the declared payload is skipped, and the scan
//!   continues.
//! - A chunk that extends past the end of the input ends the image in the
//!   same way. So does a chunk header of which fewer than eight bytes remain.
//! - A chunk whose type field is not ASCII aborts the scan with an error.
//!   The images carved up to that point are returned with the error.
//!
//! Checksums are copied along with their chunks and are not validated.

pub mod carver;
pub mod format;
pub mod naming;
pub mod probe;
pub mod scanner;
pub mod theorems;

pub use carver::CarveEnd;
pub use naming::output_name;
pub use scanner::{CarvedImage, PNGScanner, ScanError, ScanFailure};
