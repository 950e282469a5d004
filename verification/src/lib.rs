//! A verified reader and writer for a segmented binary container in the
//! JPEG style: length-prefixed tagged blocks between a Start-of-Image and an
//! End-of-Image marker, with entropy-coded byte runs after each scan block.
//!
//! Parsing produces a [`Jpeg`] document; encoding reproduces the consumed
//! input byte for byte, proved as [`jpeg::lemma_parse_encode_round_trip`].
//! [`Jpeg::inject_marker_from`] copies a tagged block between documents.

pub mod error;
pub mod jpeg;
pub mod jpeg_data;
pub mod marked_data;
pub mod marker;
pub mod scan_segment;

pub use error::ErrorKind;
pub use error::ParseError;
pub use jpeg::Jpeg;
pub use jpeg_data::JpegData;
pub use marked_data::MarkedData;
pub use marked_data::MarkerRule;
pub use marker::eoi;
pub use marker::rst;
pub use marker::soi;
pub use scan_segment::segment_data;
pub use scan_segment::ScanSegment;
