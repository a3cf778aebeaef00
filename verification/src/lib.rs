//! A verified scanner for block-structured astronomical image containers.
//!
//! The input is a byte buffer laid out in consecutive 2880-byte blocks.
//! Header-type blocks carry 80-byte text records of the form
//! `KEY = VALUE / COMMENT`; a record holding the token `" END "` closes a
//! header.  The primary header is followed by a data unit of big-endian
//! 32-bit samples whose extent the header declares, and by optional
//! extension units of verbatim text.  The scanner drives a three-state
//! machine over the blocks and collects one header mapping, one data-unit
//! span and the extension texts into a document.

use vstd::prelude::*;

pub mod buf;
pub mod data;
pub mod dims;
pub mod extension;
pub mod header;
pub mod scan;

verus! {

/// Size in bytes of one alignment block of the container format.
pub const BLOCK_SIZE: usize = 2880;

/// Size in bytes of one header text record.
pub const RECORD_SIZE: usize = 80;

/// The fatal failures of the scanning pipeline.  Every other malformation
/// (keyless records, absent numeric fields, a stray extension-start token)
/// is skipped silently.
#[derive(Clone, Copy, Debug, PartialEq, Eq, Structural)]
pub enum FitsError {
    /// The buffer is shorter than a byte range the scanner needs.
    TruncatedInputError,
    /// A numeric header field is present but does not parse.
    MalformedHeaderValueError,
    /// The declared pixel payload is not fully available in the buffer.
    DataSizeMismatchError,
}

} // verus!
