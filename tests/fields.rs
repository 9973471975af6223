use simple_bitrange::{
    bit_range_read_le_iter_impl, range_write, read_u128_le, setup_iter, write_be_compound,
    write_le_compound, write_value_le, BitBound, BitRangeRead, BitRangeWrite, Endian,
};

#[test]
fn unbounded_range_reads_whole_small_buffer() {
    let buf = &[0x0Au8, 0x50, 0xF0, 0x0F];
    let v: u32 = buf.range_read_le(..);
    assert_eq!(v, 0x0FF0500A);
    let v: u64 = buf.range_read_le(..);
    assert_eq!(v, 0x0FF0500A);
}

#[test]
fn sub_byte_field_extraction() {
    let buf = &[0b00001110u8, 0b11010011, 0b11110001, 0b10001111];
    let v: u16 = buf.range_read_le(8..24);
    assert_eq!(v, 0b1111000111010011);
    let v: u8 = buf.range_read_le(1..4);
    assert_eq!(v, 0b111);
    let v: u32 = buf.range_read_le(4..12);
    assert_eq!(v, 0b0011_0000);
}

#[test]
fn big_endian_extraction() {
    let buf = &[0x0Au8, 0x50, 0xF0, 0x0F];
    let v: u64 = buf.range_read_be(0..8);
    assert_eq!(v, 0x0F);
    let v: u64 = buf.range_read_be(0..16);
    assert_eq!(v, 0xF00F);
    let v: u64 = buf.range_read_be(0..24);
    assert_eq!(v, 0x50F00F);
    let v: u64 = buf.range_read_be(4..12);
    assert_eq!(v, 0x00);
    let v: u64 = buf.range_read_be(12..20);
    assert_eq!(v, 0x0F);
}

#[test]
fn in_place_masked_write() {
    let mut le = [0xFFu8; 4];
    le.range_write_le(4..12, 0u32);
    assert_eq!(le, [0x0F, 0xF0, 0xFF, 0xFF]);

    let mut be = [0xFFu8; 4];
    be.range_write_be(4..12, 0u32);
    assert_eq!(be, [0xFF, 0xFF, 0xF0, 0x0F]);
}

#[test]
fn round_trip_leaves_buffer_unchanged() {
    let original = [0x63u8, 0x90, 0x6e, 0x3e, 0x1e, 0x75, 0xa6, 0xd7, 0x5a];
    for (start, end) in [(0usize, 64usize), (3, 17), (5, 69), (60, 72), (7, 8)] {
        let mut buf = original;
        let v: u64 = buf[..].range_read_le(start..end);
        buf.range_write_le(start..end, v);
        assert_eq!(buf, original);

        let v: u64 = buf[..].range_read_be(start..end);
        buf.range_write_be(start..end, v);
        assert_eq!(buf, original);
    }
}

#[test]
fn write_touches_only_its_bytes() {
    let mut buf = [0xAAu8; 6];
    buf.range_write_le(12..28, 0x1234u32);
    assert_eq!(buf[0], 0xAA);
    assert_eq!(buf[4], 0xAA);
    assert_eq!(buf[5], 0xAA);
    assert_eq!(buf, [0xAA, 0x4A, 0x23, 0xA1, 0xAA, 0xAA]);

    let mut buf = [0xAAu8; 6];
    buf.range_write_be(12..28, 0x1234u32);
    assert_eq!(buf, [0xAA, 0xAA, 0xA1, 0x23, 0x4A, 0xAA]);
}

#[test]
fn little_and_big_endian_mirror() {
    let buf = [0x12u8, 0x34, 0x56, 0x78, 0x9A];
    let mut rev = buf;
    rev.reverse();
    for (start, end) in [(0usize, 8usize), (3, 19), (0, 40), (9, 33)] {
        let a: u64 = buf[..].range_read_le(start..end);
        let b: u64 = rev[..].range_read_be(start..end);
        assert_eq!(a, b);
    }
}

#[test]
fn write_truncates_value_to_field() {
    let mut buf = [0u8; 4];
    buf.range_write_le(8..16, 0xABCDu32);
    assert_eq!(buf, [0x00, 0xCD, 0x00, 0x00]);
    let v: u32 = buf[..].range_read_le(8..16);
    assert_eq!(v, 0xABCD & ((1 << 8) - 1));

    let mut buf = [0u8; 4];
    buf.range_write_be(3..8, 0xFFu8);
    let v: u8 = buf[..].range_read_be(3..8);
    assert_eq!(v, 0b11111);
    assert_eq!(buf, [0x00, 0x00, 0x00, 0xF8]);
}

#[test]
fn read_truncates_to_word() {
    let buf = &[0x34u8, 0x12, 0xCD, 0xAB];
    let v: u8 = buf.range_read_le(0..16);
    assert_eq!(v, 0x34);
    let v: u16 = buf.range_read_le(..);
    assert_eq!(v, 0x1234);
}

#[test]
fn range_forms() {
    let buf = &[0x34u8, 0x12, 0xCD, 0xAB];
    let v: u32 = buf.range_read_le(8..=15);
    assert_eq!(v, 0x12);
    let v: u32 = buf.range_read_le(16..);
    assert_eq!(v, 0xABCD);
    let v: u32 = buf.range_read_le(..12);
    assert_eq!(v, 0x234);
    let v: u32 = buf.range_read_le(..=3);
    assert_eq!(v, 0x4);
    let v: u32 = buf.range_read_le((BitBound::Excluded(7), BitBound::Included(15)));
    assert_eq!(v, 0x12);
}

#[test]
fn range_past_end_is_cut_to_buffer() {
    let buf = &[0x11u8, 0x22, 0x33, 0x44];
    let v: u64 = buf.range_read_le(24..40);
    assert_eq!(v, 0x44);
    let v: u64 = buf.range_read_le(40..48);
    assert_eq!(v, 0);

    let mut buf = [0u8; 2];
    buf.range_write_le(12..20, 0xFFu32);
    assert_eq!(buf, [0x00, 0xF0]);
    buf.range_write_le(16..24, 0xFFu32);
    assert_eq!(buf, [0x00, 0xF0]);
}

#[test]
fn unaligned_full_width_field() {
    let buf = [0x10u8, 0x32, 0x54, 0x76, 0x98, 0xBA, 0xDC, 0xFE, 0x0F];
    let v: u64 = buf[..].range_read_le(4..68);
    assert_eq!(v, 0xFFEDCBA987654321);

    let mut out = [0u8; 9];
    out.range_write_le(4..68, 0xFFEDCBA987654321u64);
    assert_eq!(out, [0x10, 0x32, 0x54, 0x76, 0x98, 0xBA, 0xDC, 0xFE, 0x0F]);
}

#[test]
fn signed_value_is_sign_extended() {
    let mut buf = [0u8; 8];
    buf.range_write_le(30..40, -1i32);
    let v: u64 = buf[..].range_read_le(..);
    assert_eq!(v, 0x3FF << 30);

    let mut buf = [0u8; 2];
    buf.range_write_le(0..16, -2i32);
    assert_eq!(buf, [0xFE, 0xFF]);
}

#[test]
fn resolves_ranges() {
    assert_eq!(setup_iter(4, 4..12), (4, 8, 0, 1));
    assert_eq!(setup_iter(4, 10..=20), (2, 11, 1, 2));
    assert_eq!(setup_iter(4, ..), (0, 64, 0, 4));
    assert_eq!(setup_iter(10, 3..), (3, 61, 0, 7));
    assert_eq!(setup_iter(2, 20..30), (4, 10, 2, 2));
}

#[test]
fn assembles_and_disassembles_bytes() {
    let buf = [0x01u8, 0x02, 0x03, 0x04];
    assert_eq!(read_u128_le(&buf, Endian::Little, 1, 4), 0x040302);
    assert_eq!(read_u128_le(&buf, Endian::Big, 0, 2), 0x0304);
    assert_eq!(read_u128_le(&buf, Endian::Big, 2, 2), 0);

    let mut out = [0u8; 4];
    write_value_le(&mut out, Endian::Little, 1, 3, 0xAABBCC);
    assert_eq!(out, [0x00, 0xCC, 0xBB, 0x00]);
    let mut out = [0u8; 4];
    write_value_le(&mut out, Endian::Big, 0, 3, 0xAABBCC);
    assert_eq!(out, [0x00, 0xAA, 0xBB, 0xCC]);
}

#[test]
fn engine_entry_points() {
    let buf = [0x0Au8, 0x50, 0xF0, 0x0F];
    assert_eq!(bit_range_read_le_iter_impl(&buf, Endian::Little, 8..24), 0xF050);
    assert_eq!(bit_range_read_le_iter_impl(&buf, Endian::Big, 8..24), 0x50F0);

    let mut out = [0xFFu8; 4];
    write_le_compound(&mut out, 0, 4..12);
    assert_eq!(out, [0x0F, 0xF0, 0xFF, 0xFF]);
    let mut out = [0xFFu8; 4];
    write_be_compound(&mut out, 0, 4..12);
    assert_eq!(out, [0xFF, 0xFF, 0xF0, 0x0F]);
    let mut out = [0u8; 4];
    range_write(&mut out, Endian::Big, 0x5A, 8..16);
    assert_eq!(out, [0x00, 0x00, 0x5A, 0x00]);
}
