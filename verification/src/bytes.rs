//! Integer packing and header parsing on plain bytes.

use vstd::prelude::*;

verus! {

/// Packs two 16-bit tile coordinates into one 32-bit map key, the high
/// half holding the first coordinate.
pub fn get_u32_from_two_u16(nb1: u16, nb2: u16) -> (r: u32)
    ensures
        r == nb1 as u32 * 0x10000 + nb2 as u32,
{
    proof {
        assert(((nb1 as u32) << 16) | (nb2 as u32) == nb1 as u32 * 0x10000 + nb2 as u32)
            by (bit_vector);
    }
    ((nb1 as u32) << 16) | (nb2 as u32)
}

/// Reads a big-endian 32-bit integer from four bytes.
pub fn read_u32_from_array(array: [u8; 4]) -> (r: u32)
    ensures
        r == array[0] as u32 * 0x1000000 + array[1] as u32 * 0x10000 + array[2] as u32 * 0x100
            + array[3] as u32,
{
    let b0 = array[0];
    let b1 = array[1];
    let b2 = array[2];
    let b3 = array[3];
    proof {
        assert((b0 as u32) << 24 | (b1 as u32) << 16 | (b2 as u32) << 8 | (b3 as u32)
            == b0 as u32 * 0x1000000 + b1 as u32 * 0x10000 + b2 as u32 * 0x100 + b3 as u32)
            by (bit_vector);
    }
    (b0 as u32) << 24 | (b1 as u32) << 16 | (b2 as u32) << 8 | (b3 as u32)
}

/// Width and height of a PNG image, read from the first 24 bytes of the
/// file: the IHDR chunk stores them big-endian at offsets 16 and 20.
pub fn png_dims_from_header(header: &[u8; 24]) -> (r: (u32, u32))
    ensures
        r.0 == header[16] as u32 * 0x1000000 + header[17] as u32 * 0x10000
            + header[18] as u32 * 0x100 + header[19] as u32,
        r.1 == header[20] as u32 * 0x1000000 + header[21] as u32 * 0x10000
            + header[22] as u32 * 0x100 + header[23] as u32,
{
    let width = read_u32_from_array([header[16], header[17], header[18], header[19]]);
    let height = read_u32_from_array([header[20], header[21], header[22], header[23]]);
    (width, height)
}

} // verus!
