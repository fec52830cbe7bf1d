use mouse_configurator::bits::{BitStream, BitWriter};

#[test]
fn bit_cursor_reads_lsb_first() {
    // 0xA6 = 0b1010_0110, so the bits come out 0,1,1,0,0,1,0,1
    let mut bs = BitStream::new(&[0xA6]);
    assert_eq!(bs.bits(3), Some(6));
    assert_eq!(bs.bit(), Some(false));
    // not enough bits left: nothing is consumed
    assert_eq!(bs.bits(8), None);
    assert_eq!(bs.len(), 4);
    assert_eq!(bs.bits(4), Some(10));
    assert!(bs.is_empty());
    assert_eq!(bs.bit(), None);
}

#[test]
fn bit_cursor_spans_byte_boundaries() {
    // low nibble of the second byte follows the first byte's bits
    let mut bs = BitStream::new(&[0xFF, 0x0A]);
    assert_eq!(bs.bits(6), Some(0b111111));
    // the two high bits of the first byte, then 0xA's low nibble
    assert_eq!(bs.bits(6), Some(0b101011));
    assert_eq!(bs.len(), 4);
}

#[test]
fn bit_cursor_respects_bit_length() {
    let mut bs = BitStream::for_bitslice(&[0xFF, 0xFF], 10);
    assert_eq!(bs.len(), 10);
    assert_eq!(bs.bits(8), Some(0xFF));
    assert_eq!(bs.bits(4), None);
    assert_eq!(bs.bits(2), Some(3));
    assert!(bs.is_empty());
}

#[test]
fn bit_writer_packs_lsb_first_and_pads() {
    let mut w = BitWriter::new();
    w.push_bit(true);
    w.push_bits(0xFF, 4);
    assert_eq!(w.bit_len(), 5);
    // bits 1,1,1,1,1 then three zero padding bits
    assert_eq!(w.into_vec(), vec![0b0001_1111]);
}

#[test]
fn bit_writer_round_trips_through_cursor() {
    let mut w = BitWriter::new();
    w.push_bits(0b101, 3);
    w.push_bits(0xC4, 8);
    w.push_bit(false);
    let nbits = w.bit_len();
    assert_eq!(nbits, 12);
    let bytes = w.into_vec();
    let mut bs = BitStream::for_bitslice(&bytes, nbits);
    assert_eq!(bs.bits(3), Some(0b101));
    assert_eq!(bs.bits(8), Some(0xC4));
    assert_eq!(bs.bit(), Some(false));
    assert!(bs.is_empty());
}
