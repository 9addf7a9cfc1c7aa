use flac_meta::bits::BitCursor;
use flac_meta::error::FlacError;

#[test]
fn cursor_reads_msb_first() {
    let data = [0b1010_1100u8, 0b0011_1111u8];
    let mut c = BitCursor::new(&data);
    assert_eq!(c.read_bits(4), Ok(0b1010));
    assert_eq!(c.read_bits(6), Ok(0b1100_00));
    assert_eq!(c.read_bits(6), Ok(0b11_1111));
}

#[test]
fn cursor_crosses_byte_boundaries() {
    // 0x12345678 read in unaligned pieces.
    let data = [0x12u8, 0x34, 0x56, 0x78];
    let mut c = BitCursor::new(&data);
    assert_eq!(c.read_bits(12), Ok(0x123));
    assert_eq!(c.read_bits(3), Ok(0b010));
    assert_eq!(c.read_bits(17), Ok(0b0_0101_0110_0111_1000));
}

#[test]
fn cursor_whole_word() {
    let data = [0xDEu8, 0xAD, 0xBE, 0xEF, 0x01, 0x23, 0x45, 0x67];
    let mut c = BitCursor::new(&data);
    assert_eq!(c.read_bits(64), Ok(0xDEAD_BEEF_0123_4567));
}

#[test]
fn cursor_out_of_bits() {
    let data = [0xFFu8];
    let mut c = BitCursor::new(&data);
    assert_eq!(c.read_bits(9), Err(FlacError::OutOfBits));
    // The failed read did not consume anything.
    assert_eq!(c.read_bits(8), Ok(0xFF));
    assert_eq!(c.read_bits(0), Ok(0));
    assert_eq!(c.read_bits(1), Err(FlacError::OutOfBits));
}
