use fluffhammer::aggregate::aggregate;
use fluffhammer::cursor::Endian;
use fluffhammer::strider::Offset;

#[test]
fn merge_is_stable_on_equal_offsets() {
    let little = vec![
        Offset { offset: 0, width_bits: 8, endian: Endian::Little },
        Offset { offset: 2, width_bits: 16, endian: Endian::Little },
    ];
    let big = vec![
        Offset { offset: 0, width_bits: 8, endian: Endian::Big },
        Offset { offset: 1, width_bits: 8, endian: Endian::Big },
    ];
    let merged = aggregate(little, big);
    let expected = vec![
        Offset { offset: 0, width_bits: 8, endian: Endian::Little },
        Offset { offset: 0, width_bits: 8, endian: Endian::Big },
        Offset { offset: 1, width_bits: 8, endian: Endian::Big },
        Offset { offset: 2, width_bits: 16, endian: Endian::Little },
    ];
    assert_eq!(merged, expected);
}

#[test]
fn merge_with_one_side_empty() {
    let little = vec![Offset { offset: 3, width_bits: 8, endian: Endian::Little }];
    assert_eq!(aggregate(little.clone(), vec![]), little);
    let big = vec![Offset { offset: 5, width_bits: 32, endian: Endian::Big }];
    assert_eq!(aggregate(vec![], big.clone()), big);
    assert_eq!(aggregate(vec![], vec![]), vec![]);
}
