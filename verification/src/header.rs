//! The header parser: splits a header-bearing byte range into fixed
//! 80-byte records and extracts `KEY = VALUE` pairs.  Records without an
//! `=` are dropped silently; this parser never fails.

use vstd::prelude::*;
use vstd::slice::slice_subrange;

use crate::buf::{
    bytes_eq, contains_byte, find_byte, index_of_first, lemma_first_at_or_after,
    lemma_index_of_first_contains, trim, trim_slice,
};
use crate::{BLOCK_SIZE, RECORD_SIZE};

verus! {

/// The byte that separates a record's key from its value.
pub const EQUALS_BYTE: u8 = 61;

/// The byte that starts a trailing comment inside a record's value.
pub const SLASH_BYTE: u8 = 47;

/// One parsed `KEY = VALUE` pair of a header record.
pub struct Record {
    pub key: Vec<u8>,
    pub value: Vec<u8>,
}

/// `s` cut short at the first `/`, which starts a trailing comment.
pub open spec fn strip_comment(s: Seq<u8>) -> Seq<u8> {
    match index_of_first(s, SLASH_BYTE) {
        None => s,
        Some(i) => s.take(i),
    }
}

/// The pair a record yields: the record is split at its first `=`, the
/// value is cut at its first `/`, and both sides are trimmed of
/// surrounding whitespace.  A record without `=` yields no pair.
pub open spec fn spec_record(rec: Seq<u8>) -> Option<(Seq<u8>, Seq<u8>)> {
    match index_of_first(rec, EQUALS_BYTE) {
        None => None,
        Some(i) => Some((trim(rec.take(i)), trim(strip_comment(rec.skip(i + 1))))),
    }
}

/// Parses one header record into its key/value pair.
pub fn parse_record(record: &[u8]) -> (r: Option<Record>)
    ensures
        (match r {
            None => spec_record(record@) is None,
            Some(rec) => spec_record(record@) == Some((rec.key@, rec.value@)),
        }),
        r is Some <==> contains_byte(record@, EQUALS_BYTE),
{
    proof {
        lemma_index_of_first_contains(record@, EQUALS_BYTE);
        lemma_first_at_or_after(record@, EQUALS_BYTE, 0);
    }
    match find_byte(record, EQUALS_BYTE) {
        None => None,
        Some(i) => {
            let rlen = record.len();
            proof {
                assert(i < rlen);
            }
            let key_part = slice_subrange(record, 0, i);
            let rest = slice_subrange(record, i + 1, rlen);
            proof {
                assert(key_part@ =~= record@.take(i as int));
                assert(rest@ =~= record@.skip(i as int + 1));
            }
            let value_part = match find_byte(rest, SLASH_BYTE) {
                None => rest,
                Some(j) => {
                    proof {
                        lemma_first_at_or_after(rest@, SLASH_BYTE, 0);
                        assert(rest@.subrange(0, j as int) =~= rest@.take(j as int));
                    }
                    slice_subrange(rest, 0, j)
                },
            };
            Some(Record { key: trim_slice(key_part), value: trim_slice(value_part) })
        },
    }
}

/// The view of a record list as a sequence of (key, value) pairs.
pub open spec fn pairs_view(rs: Seq<(Vec<u8>, Vec<u8>)>) -> Seq<(Seq<u8>, Seq<u8>)> {
    Seq::new(rs.len(), |i: int| (rs[i].0@, rs[i].1@))
}

/// The key/value mapping extracted from a header-bearing byte range.
/// Pairs are kept in record order; of two records with the same key the
/// later one wins on lookup, so the order of distinct keys is irrelevant.
pub struct Header {
    pub records: Vec<(Vec<u8>, Vec<u8>)>,
}

impl View for Header {
    type V = Seq<(Seq<u8>, Seq<u8>)>;

    open spec fn view(&self) -> Seq<(Seq<u8>, Seq<u8>)> {
        pairs_view(self.records@)
    }
}

/// The value stored under `key`: that of the last pair whose key matches.
pub open spec fn lookup(h: Seq<(Seq<u8>, Seq<u8>)>, key: Seq<u8>) -> Option<Seq<u8>>
    decreases h.len(),
{
    if h.len() == 0 {
        None
    } else if h.last().0 == key {
        Some(h.last().1)
    } else {
        lookup(h.drop_last(), key)
    }
}

impl Header {
    /// A header with no pairs at all.
    pub fn empty() -> (h: Header)
        ensures
            h@ == Seq::<(Seq<u8>, Seq<u8>)>::empty(),
    {
        let h = Header { records: Vec::new() };
        proof {
            assert(h@ =~= Seq::<(Seq<u8>, Seq<u8>)>::empty());
        }
        h
    }

    /// Looks `key` up; of several records sharing the key the last wins.
    pub fn get(&self, key: &[u8]) -> (r: Option<&Vec<u8>>)
        ensures
            (match r {
                None => lookup(self@, key@) is None,
                Some(v) => lookup(self@, key@) == Some(v@),
            }),
    {
        let n = self.records.len();
        proof {
            assert(self@.take(n as int) =~= self@);
        }
        let mut i: usize = n;
        while i > 0
            invariant
                0 <= i <= n,
            n == self.records@.len(),
            lookup(self@, key@) == lookup(self@.take(i as int), key@),
            decreases i,
        {
            i = i - 1;
            let pair = &self.records[i];
            if bytes_eq(pair.0.as_slice(), key) {
                proof {
                    assert(self@.take(i as int + 1).last() == self@[i as int]);
                }
                return Some(&self.records[i].1);
            }
            proof {
                assert(self@.take(i as int + 1).last() == self@[i as int]);
                assert(self@.take(i as int + 1).drop_last() =~= self@.take(i as int));
            }
        }
        proof {
            assert(self@.take(0) =~= Seq::<(Seq<u8>, Seq<u8>)>::empty());
        }
        None
    }
}

/// The pairs a byte region yields, record by record: the region is split
/// into consecutive 80-byte records (the final one may be shorter) and
/// each record contributes its pair, if it has one.
pub open spec fn header_pairs(region: Seq<u8>) -> Seq<(Seq<u8>, Seq<u8>)>
    decreases region.len(),
{
    if region.len() == 0 {
        Seq::empty()
    } else {
        let cut = if region.len() < RECORD_SIZE { region.len() as int } else { RECORD_SIZE as int };
        let rest = header_pairs(region.skip(cut));
        match spec_record(region.take(cut)) {
            None => rest,
            Some(p) => seq![p] + rest,
        }
    }
}

/// Parses the header occupying blocks `last_block` through
/// `current_block` of the buffer, inclusive.
pub fn parse_header(fits: &Vec<u8>, last_block: usize, current_block: usize) -> (h: Header)
    requires
        last_block <= current_block,
        (current_block + 1) * BLOCK_SIZE <= fits@.len(),
    ensures
        h@ == header_pairs(
            fits@.subrange(
                last_block as int * BLOCK_SIZE as int,
                (current_block + 1) as int * BLOCK_SIZE as int,
            ),
        ),
{
    let flen = fits.len();
    proof {
        vstd::arithmetic::mul::lemma_mul_inequality(
            last_block as int,
            (current_block + 1) as int,
            BLOCK_SIZE as int,
        );
        assert((current_block + 1) * (BLOCK_SIZE as int) <= flen);
    }
    let s = last_block * BLOCK_SIZE;
    let e = (current_block + 1) * BLOCK_SIZE;
    let region = slice_subrange(fits.as_slice(), s, e);
    let ghost reg = region@;
    let rlen = region.len();
    let mut records: Vec<(Vec<u8>, Vec<u8>)> = Vec::new();
    proof {
        assert(pairs_view(records@) =~= Seq::<(Seq<u8>, Seq<u8>)>::empty());
        assert(reg.skip(0) =~= reg);
    }
    let mut off: usize = 0;
    while off < rlen
        invariant
            0 <= off <= rlen,
            rlen == reg.len(),
            region@ == reg,
            header_pairs(reg) == pairs_view(records@) + header_pairs(reg.skip(off as int)),
        decreases rlen - off,
    {
        let rec_end = if rlen - off >= RECORD_SIZE {
            off + RECORD_SIZE
        } else {
            rlen
        };
        let ghost cut: int = rec_end as int - off as int;
        let rec = slice_subrange(region, off, rec_end);
        proof {
            assert(reg.skip(off as int).take(cut as int) =~= rec@);
            assert(reg.skip(off as int).skip(cut as int) =~= reg.skip(rec_end as int));
        }
        let ghost old_records = records@;
        match parse_record(rec) {
            Some(r) => {
                records.push((r.key, r.value));
                proof {
                    assert(pairs_view(records@) =~= pairs_view(old_records) + seq![
                        (records@.last().0@, records@.last().1@),
                    ]);
                    assert(header_pairs(reg) =~= pairs_view(records@) + header_pairs(
                        reg.skip(rec_end as int),
                    ));
                }
            },
            None => {},
        }
        off = rec_end;
    }
    proof {
        assert(reg.skip(rlen as int) =~= Seq::<u8>::empty());
        assert(header_pairs(reg) =~= pairs_view(records@));
    }
    Header { records }
}

} // verus!
