//! The block scanner: partitions the buffer into consecutive 2880-byte
//! blocks and drives a three-state machine over them, delegating to the
//! header, data and extension parsers at state transitions.
//!
//! The whole walk is modelled by the recursive [`spec_scan_from`], and
//! [`scan`] is proved to return exactly what that model says.

use vstd::arithmetic::div_mod::{
    lemma_basic_div, lemma_div_is_ordered, lemma_div_pos_is_pos, lemma_fundamental_div_mod,
    lemma_fundamental_div_mod_converse, lemma_mod_bound,
};
use vstd::arithmetic::mul::lemma_mul_inequality;
use vstd::prelude::*;
use vstd::slice::slice_subrange;

use crate::buf::{contains_token, find_token};
use crate::data::{data_fits, parse_data, spec_data_size, Data};
use crate::dims::{get_dimensionality, get_xy, spec_dimensionality, spec_xy};
use crate::extension::{parse_extension, Extension};
use crate::header::{header_pairs, parse_header, Header};
use crate::{FitsError, BLOCK_SIZE};

verus! {

/// The scanner's three states: reading header blocks, handling the data
/// unit, and reading extension blocks.
#[derive(Clone, Copy, Debug, PartialEq, Eq, Structural)]
pub enum Section {
    Header,
    Data,
    Extension,
}

/// The scanned document: one header mapping, one data-unit span and the
/// extension texts in arrival order.
pub struct Fits {
    pub header: Header,
    pub data: Data,
    pub extension: Vec<Extension>,
}

/// The mathematical shadow of a document: the header pairs, the
/// data-unit span and the extension texts.
#[verifier::ext_equal]
pub ghost struct DocModel {
    pub header: Seq<(Seq<u8>, Seq<u8>)>,
    pub data_start: int,
    pub data_len: int,
    pub ext: Seq<Seq<u8>>,
}

impl View for Fits {
    type V = DocModel;

    open spec fn view(&self) -> DocModel {
        DocModel {
            header: self.header@,
            data_start: self.data.start as int,
            data_len: self.data.len as int,
            ext: Seq::new(self.extension@.len(), |i: int| self.extension@[i]@),
        }
    }
}

/// The document a scan starts from: nothing found yet.
pub open spec fn empty_doc() -> DocModel {
    DocModel {
        header: Seq::empty(),
        data_start: 0,
        data_len: 0,
        ext: Seq::empty(),
    }
}

/// The record token that closes a header-type unit: `" END "`.
pub open spec fn end_token() -> Seq<u8> {
    seq![32u8, 69u8, 78u8, 68u8, 32u8]
}

/// The token that announces a subsequent header-type unit: `"XTENSION"`.
pub open spec fn xtension_token() -> Seq<u8> {
    seq![88u8, 84u8, 69u8, 78u8, 83u8, 73u8, 79u8, 78u8]
}

/// How many blocks the scanner walks: the final partial block counts.
pub open spec fn n_blocks(len: int) -> int {
    (len + BLOCK_SIZE - 1) / (BLOCK_SIZE as int)
}

/// Block `cur` of the buffer; the final one may be short.
pub open spec fn block_of(buf: Seq<u8>, cur: int) -> Seq<u8> {
    buf.subrange(
        cur * BLOCK_SIZE,
        if (cur + 1) * BLOCK_SIZE <= buf.len() {
            (cur + 1) * BLOCK_SIZE
        } else {
            buf.len() as int
        },
    )
}

/// How many blocks the stored data unit consumes before the next unit
/// starts: the blocks it occupies, and at least one even when empty.
pub open spec fn data_advance(data_len: int) -> int {
    let blocks = (data_len + BLOCK_SIZE - 1) / (BLOCK_SIZE as int);
    if blocks < 1 {
        1
    } else {
        blocks
    }
}

/// What the data-handling state does to the document: when the header
/// declares rank 2 the payload starting at block `bi` is recorded, the
/// dimension resolver's failure and the sizing failure propagate, and
/// any other rank leaves the document unchanged.
pub open spec fn data_step(len: int, bi: int, doc: DocModel) -> Result<DocModel, FitsError> {
    if spec_dimensionality(doc.header) == Some(2u32) {
        match spec_xy(doc.header) {
            Err(e) => Err(e),
            Ok(xy) => if data_fits(len, bi, xy.0, xy.1) {
                Ok(
                    DocModel {
                        data_start: bi * BLOCK_SIZE,
                        data_len: spec_data_size(xy.0, xy.1),
                        ..doc
                    },
                )
            } else {
                Err(FitsError::DataSizeMismatchError)
            },
        }
    } else {
        Ok(doc)
    }
}

/// The rest of the scan, from block `cur` in state `state` with the
/// current unit starting at block `bi` and the document built so far.
/// A header or extension range that would leave the buffer is a
/// truncation failure; running out of blocks mid-unit is not.
pub open spec fn spec_scan_from(
    buf: Seq<u8>,
    cur: int,
    state: Section,
    bi: int,
    doc: DocModel,
) -> Result<DocModel, FitsError>
    decreases n_blocks(buf.len() as int) - cur,
{
    if cur < 0 || cur >= n_blocks(buf.len() as int) {
        Ok(doc)
    } else {
        let chunk = block_of(buf, cur);
        match state {
            Section::Header => {
                if contains_token(chunk, end_token()) {
                    if (cur + 1) * BLOCK_SIZE > buf.len() {
                        Err(FitsError::TruncatedInputError)
                    } else {
                        let doc2 = DocModel {
                            header: header_pairs(
                                buf.subrange(bi * BLOCK_SIZE, (cur + 1) * BLOCK_SIZE),
                            ),
                            ..doc
                        };
                        spec_scan_from(buf, cur + 1, Section::Data, cur + 1, doc2)
                    }
                } else {
                    spec_scan_from(buf, cur + 1, Section::Header, bi, doc)
                }
            },
            Section::Data => match data_step(buf.len() as int, bi, doc) {
                Err(e) => Err(e),
                Ok(doc2) => spec_scan_from(
                    buf,
                    cur + 1,
                    Section::Extension,
                    cur + data_advance(doc2.data_len),
                    doc2,
                ),
            },
            Section::Extension => {
                if contains_token(chunk, end_token()) {
                    if (cur + 1) * BLOCK_SIZE > buf.len() || bi < 0 || bi > cur + 1 {
                        Err(FitsError::TruncatedInputError)
                    } else {
                        let doc2 = DocModel {
                            ext: doc.ext.push(
                                buf.subrange(bi * BLOCK_SIZE, (cur + 1) * BLOCK_SIZE),
                            ),
                            ..doc
                        };
                        spec_scan_from(buf, cur + 1, Section::Header, cur + 1, doc2)
                    }
                } else {
                    spec_scan_from(buf, cur + 1, Section::Extension, bi, doc)
                }
            },
        }
    }
}

/// The scanned document for a whole buffer: a buffer shorter than one
/// block is truncated input; otherwise the walk starts at block 0 in the
/// header-reading state.
pub open spec fn spec_scan(buf: Seq<u8>) -> Result<DocModel, FitsError> {
    if buf.len() < BLOCK_SIZE {
        Err(FitsError::TruncatedInputError)
    } else {
        spec_scan_from(buf, 0, Section::Header, 0, empty_doc())
    }
}

/// Facts about the block count of a non-empty buffer: there is at least
/// one block, the last one starts inside the buffer, and the count can
/// be computed without the sum overflowing.
pub proof fn lemma_n_blocks(len: int)
    requires
        len >= 1,
    ensures
        n_blocks(len) >= 1,
        (n_blocks(len) - 1) * BLOCK_SIZE < len,
        len <= n_blocks(len) * BLOCK_SIZE,
        n_blocks(len) == (len - 1) / (BLOCK_SIZE as int) + 1,
{
    let b = BLOCK_SIZE as int;
    let q = (len - 1) / b;
    let r = (len - 1) % b;
    lemma_fundamental_div_mod(len - 1, b);
    lemma_mod_bound(len - 1, b);
    lemma_div_pos_is_pos(len - 1, b);
    lemma_fundamental_div_mod_converse(len + b - 1, b, q + 1, r);
    assert(q * b == b * q);
    assert((q + 1) * b == b * q + b);
}

/// The advance past a data unit is at least one block and at most the
/// whole buffer's block count.
pub proof fn lemma_data_advance(len: int, dl: int)
    requires
        len >= 1,
        0 <= dl <= len,
    ensures
        1 <= data_advance(dl) <= n_blocks(len),
        dl >= 1 ==> data_advance(dl) == (dl - 1) / (BLOCK_SIZE as int) + 1,
{
    let b = BLOCK_SIZE as int;
    lemma_div_is_ordered(dl + b - 1, len + b - 1, b);
    lemma_n_blocks(len);
    if dl >= 1 {
        lemma_n_blocks(dl);
    } else {
        lemma_basic_div(b - 1, b);
    }
}

/// Advancing past the stored data unit never leaves the block index
/// beyond the buffer's byte length, so the index fits a `usize`.
pub proof fn lemma_advance_no_overflow(len: int, cur: int, dl: int)
    requires
        len >= 1,
        0 <= cur < n_blocks(len),
        0 <= dl <= len,
    ensures
        cur + data_advance(dl) <= len,
{
    let b = BLOCK_SIZE as int;
    lemma_n_blocks(len);
    lemma_data_advance(len, dl);
    vstd::arithmetic::div_mod::lemma_div_is_ordered_by_denominator(len - 1, 2, b);
    lemma_fundamental_div_mod(len - 1, 2);
    lemma_mod_bound(len - 1, 2);
}

/// Builds the `" END "` token as a byte vector.
fn end_token_vec() -> (r: Vec<u8>)
    ensures
        r@ == end_token(),
{
    let mut v: Vec<u8> = Vec::new();
    v.push(32);
    v.push(69);
    v.push(78);
    v.push(68);
    v.push(32);
    proof {
        assert(v@ =~= end_token());
    }
    v
}

/// Scans the buffer into a document.  The result is exactly what the
/// mathematical walk [`spec_scan`] yields; in particular any buffer
/// shorter than one block is rejected as truncated input.
pub fn scan(buffer: &Vec<u8>) -> (r: Result<Fits, FitsError>)
    ensures
        (match r {
            Ok(doc) => spec_scan(buffer@) == Ok::<DocModel, FitsError>(doc@),
            Err(e) => spec_scan(buffer@) == Err::<DocModel, FitsError>(e),
        }),
        buffer@.len() < BLOCK_SIZE ==> r == Err::<Fits, FitsError>(
            FitsError::TruncatedInputError,
        ),
{
    let len = buffer.len();
    if len < BLOCK_SIZE {
        return Err(FitsError::TruncatedInputError);
    }
    proof {
        lemma_n_blocks(len as int);
    }
    let n = (len - 1) / BLOCK_SIZE + 1;
    let end_tok = end_token_vec();
    let mut fits = Fits { header: Header::empty(), data: Data::empty(), extension: Vec::new() };
    let mut state = Section::Header;
    let mut bi: usize = 0;
    let mut cur: usize = 0;
    proof {
        assert(fits@ =~~= empty_doc());
    }
    while cur < n
        invariant
            len == buffer@.len(),
            len >= BLOCK_SIZE,
            n == n_blocks(len as int),
            end_tok@ == end_token(),
            0 <= cur <= n,
            state == Section::Header ==> bi <= cur,
            fits@.data_start + fits@.data_len <= len,
            spec_scan_from(buffer@, cur as int, state, bi as int, fits@) == spec_scan(buffer@),
        decreases n - cur,
    {
        proof {
            lemma_n_blocks(len as int);
            lemma_mul_inequality(cur as int, n as int - 1, BLOCK_SIZE as int);
        }
        let bstart = cur * BLOCK_SIZE;
        let bend = if len - bstart >= BLOCK_SIZE {
            bstart + BLOCK_SIZE
        } else {
            len
        };
        let chunk = slice_subrange(buffer.as_slice(), bstart, bend);
        proof {
            assert(chunk@ =~= block_of(buffer@, cur as int));
        }
        match state {
            Section::Header => {
                if find_token(chunk, end_tok.as_slice()) {
                    if len - bstart < BLOCK_SIZE {
                        // the header range would run past the buffer's end
                        return Err(FitsError::TruncatedInputError);
                    }
                    let ghost doc0 = fits@;
                    let h = parse_header(buffer, bi, cur);
                    fits.header = h;
                    proof {
                        assert(fits@ =~~= DocModel {
                            header: header_pairs(
                                buffer@.subrange(
                                    bi as int * BLOCK_SIZE,
                                    (cur as int + 1) * BLOCK_SIZE,
                                ),
                            ),
                            ..doc0
                        });
                    }
                    state = Section::Data;
                    bi = cur + 1;
                }
            },
            Section::Data => {
                let ghost doc0 = fits@;
                let dim = get_dimensionality(&fits.header);
                let is_two = match dim {
                    Some(d) => d == 2,
                    None => false,
                };
                if is_two {
                    match get_xy(&fits.header) {
                        Ok(xy) => match parse_data(buffer, bi, xy) {
                            Ok(d) => {
                                fits.data = d;
                                proof {
                                    assert(fits@ =~~= DocModel {
                                        data_start: bi as int * BLOCK_SIZE,
                                        data_len: spec_data_size(xy.0, xy.1),
                                        ..doc0
                                    });
                                }
                            },
                            Err(e) => {
                                return Err(e);
                            },
                        },
                        Err(e) => {
                            return Err(e);
                        },
                    }
                }
                proof {
                    assert(data_step(len as int, bi as int, doc0) == Ok::<DocModel, FitsError>(
                        fits@,
                    ));
                    lemma_advance_no_overflow(len as int, cur as int, fits.data.len as int);
                    lemma_data_advance(len as int, fits.data.len as int);
                }
                state = Section::Extension;
                let dl = fits.data.len;
                let adv = if dl == 0 {
                    1
                } else {
                    (dl - 1) / BLOCK_SIZE + 1
                };
                bi = cur + adv;
            },
            Section::Extension => {
                // A block here may carry the extension-start token
                // "XTENSION"; meeting it keeps the scanner in this very
                // state and changes nothing else, so the walk does not
                // test for it.  Only the end token acts.
                if find_token(chunk, end_tok.as_slice()) {
                    if len - bstart < BLOCK_SIZE || bi > cur + 1 {
                        // the extension range would be reversed or would
                        // run past the buffer's end
                        return Err(FitsError::TruncatedInputError);
                    }
                    let ghost doc0 = fits@;
                    let e = parse_extension(buffer, bi, cur);
                    fits.extension.push(e);
                    proof {
                        assert(fits@ =~~= DocModel {
                            ext: doc0.ext.push(
                                buffer@.subrange(
                                    bi as int * BLOCK_SIZE,
                                    (cur as int + 1) * BLOCK_SIZE,
                                ),
                            ),
                            ..doc0
                        });
                    }
                    state = Section::Header;
                    bi = cur + 1;
                }
            },
        }
        cur = cur + 1;
    }
    Ok(fits)
}

/// An `" END "` token met in the extension-reading state closes the
/// extension unit even though no `"XTENSION"` token occurs in the block:
/// the transition does not consult that token at all.
pub proof fn lemma_extension_end_without_xtension(
    buf: Seq<u8>,
    cur: int,
    bi: int,
    doc: DocModel,
)
    requires
        0 <= cur < n_blocks(buf.len() as int),
        contains_token(block_of(buf, cur), end_token()),
        !contains_token(block_of(buf, cur), xtension_token()),
        0 <= bi <= cur + 1,
        (cur + 1) * BLOCK_SIZE <= buf.len(),
    ensures
        spec_scan_from(buf, cur, Section::Extension, bi, doc) == spec_scan_from(
            buf,
            cur + 1,
            Section::Header,
            cur + 1,
            DocModel {
                ext: doc.ext.push(buf.subrange(bi * BLOCK_SIZE, (cur + 1) * BLOCK_SIZE)),
                ..doc
            },
        ),
{
}

} // verus!
