//! The extension parser: copies the verbatim text of a trailing block
//! range.  Extension content carries no structure this library reads;
//! the copy always succeeds for an in-bounds range.

use vstd::prelude::*;
use vstd::slice::{slice_subrange, slice_to_vec};

use crate::BLOCK_SIZE;

verus! {

/// One extension unit: an owned verbatim copy of a trailing block range.
pub struct Extension {
    pub data: Vec<u8>,
}

impl View for Extension {
    type V = Seq<u8>;

    open spec fn view(&self) -> Seq<u8> {
        self.data@
    }
}

/// Copies the extension text occupying blocks `last_block` through
/// `current_block` of the buffer, inclusive.
pub fn parse_extension(fits: &Vec<u8>, last_block: usize, current_block: usize) -> (ext:
    Extension)
    requires
        last_block <= current_block + 1,
        (current_block + 1) * BLOCK_SIZE <= fits@.len(),
    ensures
        ext@ == fits@.subrange(
            last_block as int * BLOCK_SIZE as int,
            (current_block + 1) as int * BLOCK_SIZE as int,
        ),
{
    let flen = fits.len();
    proof {
        vstd::arithmetic::mul::lemma_mul_inequality(
            last_block as int,
            (current_block + 1) as int,
            BLOCK_SIZE as int,
        );
        assert((current_block + 1) * (BLOCK_SIZE as int) <= flen);
    }
    let s = last_block * BLOCK_SIZE;
    let e = (current_block + 1) * BLOCK_SIZE;
    let sub = slice_subrange(fits.as_slice(), s, e);
    Extension { data: slice_to_vec(sub) }
}

} // verus!
