use fluffhammer::cursor::{ByteView, Endian, ReadError};

#[test]
fn reads_advance_and_decode_little() {
    let data = [0x01u8, 0x02, 0x03, 0x04, 0x05, 0x06, 0x07];
    let mut bv = ByteView::new(&data);
    assert_eq!(bv.length(), 7);
    assert_eq!(bv.read_u8(), Ok(0x01));
    assert_eq!(bv.read_u16(), Ok(0x0302));
    assert_eq!(bv.read_u32(), Ok(0x07060504));
}

#[test]
fn reads_decode_big() {
    let data = [0x01u8, 0x02, 0x03, 0x04, 0x05, 0x06, 0x07];
    let mut bv = ByteView::new(&data);
    bv.set_byte_order(Endian::Big);
    assert_eq!(bv.read_u8(), Ok(0x01));
    assert_eq!(bv.read_u16(), Ok(0x0203));
    assert_eq!(bv.read_u32(), Ok(0x04050607));
}

#[test]
fn seek_repositions_including_backward() {
    let data = [0xAAu8, 0xBB, 0xCC];
    let mut bv = ByteView::new(&data);
    bv.seek(2);
    assert_eq!(bv.read_u8(), Ok(0xCC));
    bv.seek(0);
    assert_eq!(bv.read_u8(), Ok(0xAA));
}

#[test]
fn byte_order_change_affects_later_reads_only() {
    let data = [0x01u8, 0x02, 0x03, 0x04];
    let mut bv = ByteView::new(&data);
    let little = bv.read_u16();
    bv.set_byte_order(Endian::Big);
    bv.seek(0);
    let big = bv.read_u16();
    assert_eq!(little, Ok(0x0201));
    assert_eq!(big, Ok(0x0102));
}

#[test]
fn out_of_bounds_reads_fail_and_do_not_advance() {
    let data = [0x01u8, 0x02, 0x03];
    let mut bv = ByteView::new(&data);
    bv.seek(2);
    assert_eq!(bv.read_u16(), Err(ReadError::OutOfBounds));
    assert_eq!(bv.read_u32(), Err(ReadError::OutOfBounds));
    // The failed reads left the cursor in place: one byte still remains.
    assert_eq!(bv.read_u8(), Ok(0x03));
    assert_eq!(bv.read_u8(), Err(ReadError::OutOfBounds));
}
