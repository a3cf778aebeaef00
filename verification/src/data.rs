//! The data extractor: slices out the byte range holding the pixel
//! payload and decodes it as consecutive big-endian 32-bit words.  Only
//! 4-byte samples are supported; bit-depth metadata is not consulted.

use vstd::prelude::*;

use crate::{FitsError, BLOCK_SIZE};

verus! {

/// A non-owning view of the pixel payload: `len` bytes of the scanned
/// buffer starting at byte offset `start`.
#[derive(Clone, Copy, Debug, PartialEq, Eq, Structural)]
pub struct Data {
    pub start: usize,
    pub len: usize,
}

impl Data {
    /// The data unit a document starts out with: no bytes at all.
    pub fn empty() -> (d: Data)
        ensures
            d.start == 0,
            d.len == 0,
    {
        Data { start: 0, len: 0 }
    }
}

/// The byte length the declared extents call for: 4 bytes per sample.
pub open spec fn spec_data_size(x: u32, y: u32) -> int {
    x * y * 4
}

/// Whether a payload of `x * y * 4` bytes starting at block
/// `start_block` lies fully inside a buffer of `len` bytes.
pub open spec fn data_fits(len: int, start_block: int, x: u32, y: u32) -> bool {
    start_block * BLOCK_SIZE + spec_data_size(x, y) <= len
}

/// Slices out the data unit: exactly `x * y * 4` bytes starting at block
/// `last_block`.  A buffer that does not hold them all is a fatal sizing
/// failure, never a short read.
pub fn parse_data(fits: &Vec<u8>, last_block: usize, xy: (u32, u32)) -> (r: Result<
    Data,
    FitsError,
>)
    ensures
        (match r {
            Ok(d) => data_fits(fits@.len() as int, last_block as int, xy.0, xy.1) && d.start
                == last_block as int * BLOCK_SIZE as int && d.len == spec_data_size(xy.0, xy.1),
            Err(e) => e == FitsError::DataSizeMismatchError && !data_fits(
                fits@.len() as int,
                last_block as int,
                xy.0,
                xy.1,
            ),
        }),
{
    let x = xy.0;
    let y = xy.1;
    proof {
        vstd::arithmetic::mul::lemma_mul_upper_bound(
            x as int,
            u32::MAX as int,
            y as int,
            u32::MAX as int,
        );
    }
    let size: u128 = x as u128 * y as u128 * 4;
    let start: u128 = last_block as u128 * BLOCK_SIZE as u128;
    let flen = fits.len();
    if start + size <= flen as u128 {
        Ok(Data { start: start as usize, len: size as usize })
    } else {
        Err(FitsError::DataSizeMismatchError)
    }
}

/// The big-endian 32-bit word spelled by the four bytes of `s` at
/// offset `o`.
pub open spec fn be_word(s: Seq<u8>, o: int) -> u32
    recommends
        0 <= o,
        o + 4 <= s.len(),
{
    (s[o] * 0x1000000 + s[o + 1] * 0x10000 + s[o + 2] * 0x100 + s[o + 3]) as u32
}

/// Decodes the data unit's bytes as consecutive big-endian 32-bit words.
pub fn data_words(fits: &Vec<u8>, data: &Data) -> (r: Vec<u32>)
    requires
        data.start + data.len <= fits@.len(),
        data.len % 4 == 0,
    ensures
        r@.len() == data.len as int / 4,
        forall|k: int| 0 <= k < r@.len() ==> r@[k] == be_word(fits@, data.start + 4 * k),
{
    let count = data.len / 4;
    proof {
        assert(4 * (data.len as int / 4) == data.len);
    }
    let flen = fits.len();
    let mut out: Vec<u32> = Vec::new();
    let mut k: usize = 0;
    while k < count
        invariant
            flen == fits@.len(),
            data.start + data.len <= fits@.len(),
            data.len % 4 == 0,
            count == data.len as int / 4,
            4 * count == data.len,
            0 <= k <= count,
            out@.len() == k,
            forall|j: int| 0 <= j < k ==> out@[j] == be_word(fits@, data.start + 4 * j),
        decreases count - k,
    {
        let off = data.start + 4 * k;
        let b0 = fits[off];
        let b1 = fits[off + 1];
        let b2 = fits[off + 2];
        let b3 = fits[off + 3];
        let w = (b0 as u32) * 0x1000000 + (b1 as u32) * 0x10000 + (b2 as u32) * 0x100 + (
        b3 as u32);
        out.push(w);
        k = k + 1;
    }
    out
}

} // verus!
