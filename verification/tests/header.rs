use fluffhammer::world::{Error, World, HEADER_MAGIC_LE};

const GOOD_HEADER: [u8; 13] = [
    0x25, 0x43, 0x4a, 0x53, 0x01, 0x00, 0x00, 0x01, 0x00, 0x0a, 0x00, 0x01, 0x00,
];

#[test]
fn good_header_parses() {
    let world = World::parse(&GOOD_HEADER).expect("parse failed");
    let h = world.header;
    assert_eq!(h.magic, HEADER_MAGIC_LE);
    assert_eq!(h.version, 1);
    // The unknown words are kept exactly as the Little-order reads deliver
    // them: bytes [0x00, 0x00] and [0x01, 0x00].
    assert_eq!(h.__unknown0, 0x0000);
    assert_eq!(h.__unknown1, 0x0001);
    assert_eq!(h.size, 10);
    assert!(h.town);
}

#[test]
fn bad_version_fails() {
    let mut data = GOOD_HEADER;
    data[4] = 0x02;
    assert!(matches!(World::parse(&data), Err(Error::InvalidHeader)));
}

#[test]
fn wrong_magic_fails() {
    let mut data = GOOD_HEADER;
    data[0] = 0x26;
    assert!(matches!(World::parse(&data), Err(Error::InvalidHeader)));
}

#[test]
fn short_buffer_fails_as_read_error() {
    // A truncated buffer whose constant fields all match as far as it goes
    // fails with the read error itself, not with a header mismatch.
    assert!(matches!(World::parse(&GOOD_HEADER[..12]), Err(Error::OutOfBounds)));
    assert!(matches!(World::parse(&[]), Err(Error::OutOfBounds)));
    assert!(matches!(World::parse(&GOOD_HEADER[..4]), Err(Error::OutOfBounds)));
    // Valid magic and version, then the data ends: still a read error.
    assert!(matches!(
        World::parse(&[0x25, 0x43, 0x4a, 0x53, 0x01]),
        Err(Error::OutOfBounds)
    ));
}

#[test]
fn mismatch_within_short_buffer_is_invalid_header() {
    // Four bytes are enough to read and reject a wrong magic: the constant
    // mismatch is reported, not the later truncation.
    assert!(matches!(
        World::parse(&[0x26, 0x43, 0x4a, 0x53]),
        Err(Error::InvalidHeader)
    ));
    // Five bytes with good magic and a wrong version byte likewise.
    assert!(matches!(
        World::parse(&[0x25, 0x43, 0x4a, 0x53, 0x07]),
        Err(Error::InvalidHeader)
    ));
}

#[test]
fn nonzero_pad_byte_fails() {
    let mut data = GOOD_HEADER;
    data[12] = 0x01;
    assert!(matches!(World::parse(&data), Err(Error::InvalidHeader)));
}

#[test]
fn town_flag_false_when_byte_not_one() {
    let mut data = GOOD_HEADER;
    data[11] = 0x00;
    let world = World::parse(&data).expect("parse failed");
    assert!(!world.header.town);

    // Any value other than 1 reads as false.
    data[11] = 0x02;
    let world = World::parse(&data).expect("parse failed");
    assert!(!world.header.town);
}

#[test]
fn trailing_bytes_after_header_are_ignored() {
    let mut data = GOOD_HEADER.to_vec();
    data.extend_from_slice(&[0xde, 0xad, 0xbe, 0xef]);
    let world = World::parse(&data).expect("parse failed");
    assert_eq!(world.header.size, 10);
}
