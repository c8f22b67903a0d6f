use fluffhammer::cursor::Endian;
use fluffhammer::strider::{project, Offset, Strider};

fn run_scan(needle: u32, data: &[u8]) -> Vec<Offset> {
    Strider::new(needle, data).run().expect("scan failed")
}

#[test]
fn needle_one_matches_all_widths_at_zero() {
    let data = [0x01u8, 0x00, 0x00, 0x00, 0xFF, 0x01];
    let results = run_scan(1, &data);
    let expected = vec![
        Offset { offset: 0, width_bits: 8, endian: Endian::Little },
        Offset { offset: 0, width_bits: 16, endian: Endian::Little },
        Offset { offset: 0, width_bits: 32, endian: Endian::Little },
        Offset { offset: 0, width_bits: 8, endian: Endian::Big },
        Offset { offset: 5, width_bits: 8, endian: Endian::Little },
        Offset { offset: 5, width_bits: 8, endian: Endian::Big },
    ];
    assert_eq!(results, expected);
}

#[test]
fn scan_twice_identical() {
    let data = [0x01u8, 0x00, 0x00, 0x00, 0xFF, 0x01];
    let first = run_scan(1, &data);
    let second = run_scan(1, &data);
    assert_eq!(first, second);
}

#[test]
fn empty_buffer_no_matches() {
    let data: [u8; 0] = [];
    assert_eq!(run_scan(1, &data), vec![]);
}

#[test]
fn width8_match_reported_once_per_pass() {
    let data = [0x07u8, 0x07];
    let results = run_scan(7, &data);
    let expected = vec![
        Offset { offset: 0, width_bits: 8, endian: Endian::Little },
        Offset { offset: 0, width_bits: 8, endian: Endian::Big },
        Offset { offset: 1, width_bits: 8, endian: Endian::Little },
        Offset { offset: 1, width_bits: 8, endian: Endian::Big },
    ];
    assert_eq!(results, expected);
}

#[test]
fn wide_needle_skips_narrow_widths() {
    // 0x12345678 fits neither 8 nor 16 bits: only 32-bit interpretations count.
    let data = [0x78u8, 0x56, 0x34, 0x12, 0x00];
    let results = run_scan(0x12345678, &data);
    let expected = vec![Offset { offset: 0, width_bits: 32, endian: Endian::Little }];
    assert_eq!(results, expected);
}

#[test]
fn big_endian_32bit_match() {
    let data = [0x12u8, 0x34, 0x56, 0x78, 0x00];
    let results = run_scan(0x12345678, &data);
    let expected = vec![Offset { offset: 0, width_bits: 32, endian: Endian::Big }];
    assert_eq!(results, expected);
}

#[test]
fn sixteen_bit_little_endian_match() {
    let data = [0x02u8, 0x01, 0x00];
    let results = run_scan(0x0102, &data);
    let expected = vec![Offset { offset: 0, width_bits: 16, endian: Endian::Little }];
    assert_eq!(results, expected);
}

#[test]
fn margin_rule_excludes_trailing_16bit_read() {
    // The two bytes would decode to the needle, but a 16-bit read is only
    // attempted when a spare byte remains past the span: offset + 2 < length.
    let data = [0x02u8, 0x01];
    assert_eq!(run_scan(0x0102, &data), vec![]);
}

#[test]
fn margin_rule_excludes_trailing_32bit_read() {
    // A needle of 1 in exactly four bytes: the 32-bit read at offset 0 is
    // skipped (no spare byte), but the 8- and 16-bit reads still run.
    let data = [0x01u8, 0x00, 0x00, 0x00];
    let results = run_scan(1, &data);
    let expected = vec![
        Offset { offset: 0, width_bits: 8, endian: Endian::Little },
        Offset { offset: 0, width_bits: 16, endian: Endian::Little },
        Offset { offset: 0, width_bits: 8, endian: Endian::Big },
    ];
    assert_eq!(results, expected);
}

#[test]
fn results_ordered_by_offset_little_before_big() {
    let data = [0x05u8, 0x00, 0x05, 0x00, 0x05];
    let results = run_scan(5, &data);
    for pair in results.windows(2) {
        assert!(pair[0].offset <= pair[1].offset);
        if pair[0].offset == pair[1].offset && pair[0].width_bits == pair[1].width_bits {
            assert_eq!(pair[0].endian, Endian::Little);
            assert_eq!(pair[1].endian, Endian::Big);
        }
    }
}

#[test]
fn projections_lossless_only() {
    let p = project(0x12345678);
    assert_eq!(p.as_u8, None);
    assert_eq!(p.as_u16, None);
    assert_eq!(p.as_u32, 0x12345678);

    let p = project(0xABCD);
    assert_eq!(p.as_u8, None);
    assert_eq!(p.as_u16, Some(0xABCD));
    assert_eq!(p.as_u32, 0xABCD);

    let p = project(0xFF);
    assert_eq!(p.as_u8, Some(0xFF));
    assert_eq!(p.as_u16, Some(0xFF));
    assert_eq!(p.as_u32, 0xFF);

    let p = project(0x100);
    assert_eq!(p.as_u8, None);
    assert_eq!(p.as_u16, Some(0x100));
}
