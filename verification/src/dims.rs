//! The dimension resolver: reads the numeric header fields that describe
//! the data unit's rank and per-axis extents.  An absent axis key falls
//! back to 0; a present value that does not parse is a fatal failure.

use vstd::prelude::*;
use vstd::slice::slice_subrange;

use crate::header::{lookup, Header};
use crate::FitsError;

verus! {

/// The byte an optional leading plus sign consists of.
pub const PLUS_BYTE: u8 = 43;

/// Whether `b` is an ASCII decimal digit.
pub open spec fn is_digit(b: u8) -> bool {
    48 <= b && b <= 57
}

/// The number a digit string denotes in base ten.
pub open spec fn digits_val(s: Seq<u8>) -> int
    decreases s.len(),
{
    if s.len() == 0 {
        0
    } else {
        digits_val(s.drop_last()) * 10 + (s.last() - 48)
    }
}

/// Whether every byte of `s` is a decimal digit.
pub open spec fn all_digits(s: Seq<u8>) -> bool {
    forall|i: int| 0 <= i < s.len() ==> is_digit(s[i])
}

/// What parsing an unsigned 32-bit decimal accepts: an optional leading
/// `+`, then at least one digit, denoting a value that fits in 32 bits.
pub open spec fn spec_parse_u32(s: Seq<u8>) -> Option<u32> {
    let ds = if s.len() > 0 && s[0] == PLUS_BYTE {
        s.skip(1)
    } else {
        s
    };
    if ds.len() > 0 && all_digits(ds) && digits_val(ds) <= u32::MAX {
        Some(digits_val(ds) as u32)
    } else {
        None
    }
}

/// Appending digits to a prefix that already exceeds a bound keeps the
/// denoted number above that bound.
pub proof fn lemma_digits_prefix_exceeds(s: Seq<u8>, i: int, j: int, m: int)
    requires
        0 <= i <= j <= s.len(),
        m >= 0,
        digits_val(s.take(i)) > m,
        forall|k: int| i <= k < j ==> is_digit(s[k]),
    ensures
        digits_val(s.take(j)) > m,
    decreases j - i,
{
    if j > i {
        assert(s.take(i + 1).drop_last() =~= s.take(i));
        assert(s.take(i + 1).last() == s[i]);
        assert(is_digit(s[i]));
        assert(digits_val(s.take(i + 1)) == digits_val(s.take(i)) * 10 + (s[i] - 48));
        lemma_digits_prefix_exceeds(s, i + 1, j, m);
    }
}

/// Parses `s` as an unsigned 32-bit decimal integer.
pub fn parse_u32(s: &[u8]) -> (r: Option<u32>)
    ensures
        r == spec_parse_u32(s@),
{
    let len = s.len();
    let ds: &[u8] = if len > 0 && s[0] == PLUS_BYTE {
        let d = slice_subrange(s, 1, len);
        proof {
            assert(d@ =~= s@.skip(1));
        }
        d
    } else {
        s
    };
    let dlen = ds.len();
    if dlen == 0 {
        return None;
    }
    let ghost dsq = ds@;
    let mut acc: u32 = 0;
    let mut i: usize = 0;
    while i < dlen
        invariant
            0 <= i <= dlen,
            0 < dlen == dsq.len(),
            ds@ == dsq,
            dsq == (if s@.len() > 0 && s@[0] == PLUS_BYTE {
                s@.skip(1)
            } else {
                s@
            }),
            all_digits(dsq.take(i as int)),
            acc == digits_val(dsq.take(i as int)),
        decreases dlen - i,
    {
        let b = ds[i];
        if b < 48 || b > 57 {
            proof {
                assert(!is_digit(dsq[i as int]));
            }
            return None;
        }
        let d = (b - 48) as u32;
        proof {
            assert(dsq.take(i as int + 1).drop_last() =~= dsq.take(i as int));
            assert(dsq.take(i as int + 1).last() == dsq[i as int]);
        }
        if acc > (u32::MAX - d) / 10 {
            proof {
                assert(digits_val(dsq.take(i as int + 1)) > u32::MAX);
                if all_digits(dsq) {
                    lemma_digits_prefix_exceeds(
                        dsq,
                        i as int + 1,
                        dlen as int,
                        u32::MAX as int,
                    );
                    assert(dsq.take(dlen as int) =~= dsq);
                }
            }
            return None;
        }
        acc = acc * 10 + d;
        proof {
            assert forall|k: int| 0 <= k < i as int + 1 implies is_digit(
                #[trigger] dsq.take(i as int + 1)[k],
            ) by {
                if k < i as int {
                    assert(is_digit(dsq.take(i as int)[k]));
                }
            }
        }
        i = i + 1;
    }
    proof {
        assert(dsq.take(dlen as int) =~= dsq);
    }
    Some(acc)
}

/// The header key naming the data rank.
pub open spec fn key_naxis() -> Seq<u8> {
    seq![78u8, 65u8, 88u8, 73u8, 83u8]
}

/// The header key naming the first axis extent.
pub open spec fn key_naxis1() -> Seq<u8> {
    key_naxis().push(49u8)
}

/// The header key naming the second axis extent.
pub open spec fn key_naxis2() -> Seq<u8> {
    key_naxis().push(50u8)
}

/// Builds the rank key as a byte vector.
fn key_naxis_vec() -> (r: Vec<u8>)
    ensures
        r@ == key_naxis(),
{
    let mut v: Vec<u8> = Vec::new();
    v.push(78);
    v.push(65);
    v.push(88);
    v.push(73);
    v.push(83);
    proof {
        assert(v@ =~= key_naxis());
    }
    v
}

/// The declared rank: `NAXIS` parsed as an unsigned integer, or nothing
/// when the key is absent or its value does not parse.
pub open spec fn spec_dimensionality(h: Seq<(Seq<u8>, Seq<u8>)>) -> Option<u32> {
    match lookup(h, key_naxis()) {
        None => None,
        Some(v) => spec_parse_u32(v),
    }
}

/// One axis extent: an absent key falls back to 0, while a present value
/// that does not parse is a fatal malformed-header failure.
pub open spec fn spec_axis(h: Seq<(Seq<u8>, Seq<u8>)>, key: Seq<u8>) -> Result<u32, FitsError> {
    match lookup(h, key) {
        None => Ok(0u32),
        Some(v) => match spec_parse_u32(v) {
            Some(n) => Ok(n),
            None => Err(FitsError::MalformedHeaderValueError),
        },
    }
}

/// Both axis extents; a malformed `NAXIS1` decides before `NAXIS2` is
/// looked at.
pub open spec fn spec_xy(h: Seq<(Seq<u8>, Seq<u8>)>) -> Result<(u32, u32), FitsError> {
    match spec_axis(h, key_naxis1()) {
        Err(e) => Err(e),
        Ok(x) => match spec_axis(h, key_naxis2()) {
            Err(e) => Err(e),
            Ok(y) => Ok((x, y)),
        },
    }
}

/// Reads the declared rank from the header.
pub fn get_dimensionality(header: &Header) -> (r: Option<u32>)
    ensures
        r == spec_dimensionality(header@),
{
    let key = key_naxis_vec();
    match header.get(key.as_slice()) {
        None => None,
        Some(v) => parse_u32(v.as_slice()),
    }
}

/// Reads one axis extent from the header.
fn get_axis(header: &Header, key: &[u8]) -> (r: Result<u32, FitsError>)
    ensures
        r == spec_axis(header@, key@),
{
    match header.get(key) {
        None => Ok(0),
        Some(v) => match parse_u32(v.as_slice()) {
            Some(n) => Ok(n),
            None => Err(FitsError::MalformedHeaderValueError),
        },
    }
}

/// Reads the two axis extents from the header.
pub fn get_xy(header: &Header) -> (r: Result<(u32, u32), FitsError>)
    ensures
        r == spec_xy(header@),
{
    let mut key1 = key_naxis_vec();
    key1.push(49);
    let mut key2 = key_naxis_vec();
    key2.push(50);
    proof {
        assert(key1@ == key_naxis1());
        assert(key2@ == key_naxis2());
    }
    let x = match get_axis(header, key1.as_slice()) {
        Ok(x) => x,
        Err(e) => {
            return Err(e);
        },
    };
    let y = match get_axis(header, key2.as_slice()) {
        Ok(y) => y,
        Err(e) => {
            return Err(e);
        },
    };
    Ok((x, y))
}

} // verus!
