use tile_pyramid::bytes::{get_u32_from_two_u16, png_dims_from_header, read_u32_from_array};

#[test]
fn big_endian_u32() {
    assert_eq!(read_u32_from_array([0x12, 0x34, 0x56, 0x78]), 0x12345678);
    assert_eq!(read_u32_from_array([0, 0, 0, 0]), 0);
    assert_eq!(read_u32_from_array([0xFF, 0xFF, 0xFF, 0xFF]), u32::MAX);
    assert_eq!(read_u32_from_array([0, 0, 1, 44]), 300);
}

#[test]
fn packed_tile_keys() {
    assert_eq!(get_u32_from_two_u16(0, 0), 0);
    assert_eq!(get_u32_from_two_u16(3, 7), 3 * 0x10000 + 7);
    assert_eq!(get_u32_from_two_u16(0xFFFF, 0xFFFF), u32::MAX);
    assert_eq!(get_u32_from_two_u16(1, 0), 0x10000);
}

#[test]
fn png_header_dimensions() {
    let mut header = [0u8; 24];
    // Width 800 at offset 16, height 600 at offset 20, big-endian.
    header[16..20].copy_from_slice(&800u32.to_be_bytes());
    header[20..24].copy_from_slice(&600u32.to_be_bytes());
    assert_eq!(png_dims_from_header(&header), (800, 600));
}
