use fits_scan::data::{data_words, parse_data, Data};
use fits_scan::dims::{get_dimensionality, get_xy, parse_u32};
use fits_scan::header::{parse_header, parse_record, Header};
use fits_scan::scan::scan;
use fits_scan::{FitsError, BLOCK_SIZE, RECORD_SIZE};

fn record(text: &str) -> Vec<u8> {
    let mut v = text.as_bytes().to_vec();
    assert!(v.len() <= RECORD_SIZE);
    v.resize(RECORD_SIZE, b' ');
    v
}

fn block(records: &[&str]) -> Vec<u8> {
    let mut v = Vec::new();
    for r in records {
        v.extend_from_slice(&record(r));
    }
    assert!(v.len() <= BLOCK_SIZE);
    v.resize(BLOCK_SIZE, b' ');
    v
}

fn primary_header_block() -> Vec<u8> {
    block(&[
        "SIMPLE  =                    T",
        "NAXIS   = 2",
        "NAXIS1  = 4",
        "NAXIS2  = 2",
        "END",
    ])
}

#[test]
fn scan_rejects_empty_buffer() {
    let buf: Vec<u8> = Vec::new();
    assert!(matches!(scan(&buf), Err(FitsError::TruncatedInputError)));
}

#[test]
fn scan_rejects_buffer_shorter_than_one_block() {
    for len in [1usize, 80, 2879] {
        let buf = vec![b' '; len];
        assert!(matches!(scan(&buf), Err(FitsError::TruncatedInputError)));
    }
}

#[test]
fn scan_rejects_end_token_in_partial_final_block() {
    let mut buf = block(&["SIMPLE  =                    T"]);
    buf.extend_from_slice(&record(" END "));
    assert!(matches!(scan(&buf), Err(FitsError::TruncatedInputError)));
}

#[test]
fn record_with_equals_yields_trimmed_pair() {
    let rec = record("NAXIS1  =                    4");
    let r = parse_record(&rec).expect("record has an equals sign");
    assert_eq!(r.key, b"NAXIS1".to_vec());
    assert_eq!(r.value, b"4".to_vec());
}

#[test]
fn record_value_is_cut_at_first_slash() {
    let rec = record("BITPIX  =                  -32 / IEEE single precision");
    let r = parse_record(&rec).expect("record has an equals sign");
    assert_eq!(r.key, b"BITPIX".to_vec());
    assert_eq!(r.value, b"-32".to_vec());
}

#[test]
fn record_without_equals_yields_no_pair() {
    assert!(parse_record(&record("COMMENT just words")).is_none());
    assert!(parse_record(&record("END")).is_none());
}

#[test]
fn record_with_trailing_equals_yields_empty_value() {
    let rec = record("BLANK   =");
    let r = parse_record(&rec).expect("record has an equals sign");
    assert_eq!(r.key, b"BLANK".to_vec());
    assert_eq!(r.value, Vec::<u8>::new());
}

#[test]
fn header_round_trip_resolves_rank_and_extents() {
    let buf = primary_header_block();
    let h = parse_header(&buf, 0, 0);
    assert_eq!(get_dimensionality(&h), Some(2));
    assert_eq!(get_xy(&h), Ok((4, 2)));
}

#[test]
fn later_record_with_same_key_wins() {
    let buf = block(&["NAXIS   = 1", "NAXIS   = 3", "END"]);
    let h = parse_header(&buf, 0, 0);
    assert_eq!(get_dimensionality(&h), Some(3));
}

#[test]
fn absent_axis_keys_fall_back_to_zero() {
    let buf = block(&["NAXIS   = 2", "END"]);
    let h = parse_header(&buf, 0, 0);
    assert_eq!(get_xy(&h), Ok((0, 0)));
}

#[test]
fn unparsable_axis_value_is_malformed() {
    let buf = block(&["NAXIS   = 2", "NAXIS1  = wide", "END"]);
    let h = parse_header(&buf, 0, 0);
    assert_eq!(get_xy(&h), Err(FitsError::MalformedHeaderValueError));
}

#[test]
fn unparsable_rank_resolves_to_nothing() {
    let buf = block(&["NAXIS   = two", "END"]);
    let h = parse_header(&buf, 0, 0);
    assert_eq!(get_dimensionality(&h), None);
}

#[test]
fn parse_u32_accepts_plain_and_signed_digits() {
    assert_eq!(parse_u32(b"2"), Some(2));
    assert_eq!(parse_u32(b"+123"), Some(123));
    assert_eq!(parse_u32(b"4294967295"), Some(u32::MAX));
}

#[test]
fn parse_u32_rejects_overflow_and_junk() {
    assert_eq!(parse_u32(b"4294967296"), None);
    assert_eq!(parse_u32(b""), None);
    assert_eq!(parse_u32(b"+"), None);
    assert_eq!(parse_u32(b"12a"), None);
    assert_eq!(parse_u32(b"-3"), None);
}

#[test]
fn data_unit_of_exact_size_is_extracted() {
    let mut buf = primary_header_block();
    buf.extend_from_slice(&[7u8; 32]);
    let d = parse_data(&buf, 1, (4, 2)).expect("payload fits exactly");
    assert_eq!(d.start, BLOCK_SIZE);
    assert_eq!(d.len, 32);
}

#[test]
fn data_unit_one_byte_short_is_a_size_mismatch() {
    let mut buf = primary_header_block();
    buf.extend_from_slice(&[7u8; 31]);
    assert_eq!(
        parse_data(&buf, 1, (4, 2)),
        Err(FitsError::DataSizeMismatchError)
    );
}

#[test]
fn scan_reports_size_mismatch_for_short_payload() {
    let mut buf = primary_header_block();
    buf.extend_from_slice(&[7u8; 31]);
    assert!(matches!(scan(&buf), Err(FitsError::DataSizeMismatchError)));
}

#[test]
fn data_words_decodes_big_endian() {
    let mut buf = vec![0u8; 8];
    buf.copy_from_slice(&[0x41, 0x20, 0x00, 0x00, 0x3f, 0x80, 0x00, 0x00]);
    let d = Data { start: 0, len: 8 };
    let words = data_words(&buf, &d);
    assert_eq!(words, vec![0x4120_0000, 0x3f80_0000]);
    assert_eq!(f32::from_bits(words[0]), 10.0);
    assert_eq!(f32::from_bits(words[1]), 1.0);
}

#[test]
fn extension_end_without_xtension_token_still_produces_a_unit() {
    // Primary header without a rank, an untouched block in data
    // position, then a block holding only the end token.
    let mut buf = block(&["SIMPLE  =                    T", "END"]);
    buf.extend_from_slice(&vec![0u8; BLOCK_SIZE]);
    buf.extend_from_slice(&block(&["", "END"]));
    let doc = scan(&buf).expect("scan succeeds");
    assert_eq!(doc.extension.len(), 1);
    assert_eq!(doc.extension[0].data, block(&["", "END"]));
}

#[test]
fn full_cycle_yields_header_data_and_one_extension() {
    // Header, one data block holding the 32-byte payload, a block with
    // the extension-start token, and a block with the end token.
    let mut buf = primary_header_block();
    let mut data_block = vec![0u8; BLOCK_SIZE];
    for (i, b) in [0x41u8, 0x20, 0x00, 0x00].iter().cycle().take(32).enumerate() {
        data_block[i] = *b;
    }
    buf.extend_from_slice(&data_block);
    buf.extend_from_slice(&block(&["XTENSION= 'IMAGE   '"]));
    buf.extend_from_slice(&block(&["", "END"]));
    let doc = scan(&buf).expect("scan succeeds");
    let h: &Header = &doc.header;
    assert_eq!(get_dimensionality(h), Some(2));
    assert_eq!(get_xy(h), Ok((4, 2)));
    assert_eq!(doc.data.start, BLOCK_SIZE);
    assert_eq!(doc.data.len, 32);
    assert_eq!(doc.extension.len(), 1);
    let words = data_words(&buf, &doc.data);
    assert_eq!(words.len(), 8);
    assert!(words.iter().all(|w| *w == 0x4120_0000));
}

#[test]
fn data_spanning_two_blocks_advances_past_both() {
    // 40 * 20 * 4 = 3200 bytes of payload occupy two blocks, so the
    // extension unit begins at the fourth block.
    let mut buf = block(&["NAXIS   = 2", "NAXIS1  = 40", "NAXIS2  = 20", "END"]);
    buf.extend_from_slice(&vec![1u8; 3200]);
    buf.resize(3 * BLOCK_SIZE, 0);
    buf.extend_from_slice(&block(&["", "END"]));
    let doc = scan(&buf).expect("scan succeeds");
    assert_eq!(doc.data.start, BLOCK_SIZE);
    assert_eq!(doc.data.len, 3200);
    assert_eq!(doc.extension.len(), 1);
    assert_eq!(doc.extension[0].data, block(&["", "END"]));
}

#[test]
fn data_filling_one_block_exactly_advances_one_block() {
    // 36 * 20 * 4 = 2880 bytes fill one block exactly; the next unit
    // starts right after it.
    let mut buf = block(&["NAXIS   = 2", "NAXIS1  = 36", "NAXIS2  = 20", "END"]);
    buf.extend_from_slice(&vec![1u8; BLOCK_SIZE]);
    buf.extend_from_slice(&block(&["", "END"]));
    let doc = scan(&buf).expect("scan succeeds");
    assert_eq!(doc.data.start, BLOCK_SIZE);
    assert_eq!(doc.data.len, BLOCK_SIZE);
    assert_eq!(doc.extension.len(), 1);
    assert_eq!(doc.extension[0].data, block(&["", "END"]));
}

#[test]
fn scan_without_rank_two_keeps_data_empty() {
    let mut buf = block(&["NAXIS   = 1", "END"]);
    buf.extend_from_slice(&vec![0u8; BLOCK_SIZE]);
    let doc = scan(&buf).expect("scan succeeds");
    assert_eq!(doc.data.len, 0);
    assert_eq!(doc.extension.len(), 0);
}
