//! The display's 16-bit colours.

use vstd::prelude::*;

verus! {

/// Both bytes of `color` are equal, so that a byte-wise fill writes it.
pub open spec fn same_bytes(color: u16) -> bool {
    color / 256 == color % 256
}

/// Law: a colour has equal bytes exactly when it is one byte repeated, that
/// is, a multiple of 0x0101 by its low byte.
pub proof fn lemma_same_bytes_is_repeated_byte(color: u16)
    ensures
        same_bytes(color) <==> color as int == (color % 256) * 257,
{
}

/// Checks if both bytes in the colour are the same.
pub fn is_color_same_bytes(color: u16) -> (b: bool)
    ensures
        b == same_bytes(color),
{
    let hi = color >> 8u16;
    let lo = color & 0xffu16;
    assert(hi == color / 256 && lo == color % 256) by (bit_vector)
        requires
            hi == color >> 8u16,
            lo == color & 0xffu16,
    ;
    hi == lo
}

/// `pixel` with its two bytes exchanged: the colour stored little-endian
/// read as RGB565.
pub open spec fn swapped(pixel: u16) -> int {
    (pixel % 256) * 256 + pixel / 256
}

/// The 8-bit red, green and blue levels that `pixel` stands for: the
/// 5-6-5 bit fields of the byte-swapped value, scaled by 8, 4 and 8.
pub open spec fn rgb_of(pixel: u16) -> (u8, u8, u8) {
    let p = swapped(pixel);
    (((p / 2048) * 8) as u8, (((p / 32) % 64) * 4) as u8, ((p % 32) * 8) as u8)
}

/// The red, green and blue levels of a display colour.
pub fn u16_to_rgb(pixel: u16) -> (r: (u8, u8, u8))
    ensures
        r == rgb_of(pixel),
        r.0 % 8 == 0 && r.1 % 4 == 0 && r.2 % 8 == 0,
{
    let p: u16 = ((pixel & 0xffu16) << 8u16) | (pixel >> 8u16);
    let rf: u16 = (p & 0xf800u16) >> 11u16;
    let gf: u16 = (p & 0x07e0u16) >> 5u16;
    let bf: u16 = p & 0x001fu16;
    assert(rf < 32 && gf < 64 && bf < 32
        && p == (pixel % 256) * 256 + pixel / 256
        && rf == p / 2048 && gf == (p / 32) % 64 && bf == p % 32) by (bit_vector)
        requires
            p == ((pixel & 0xffu16) << 8u16) | (pixel >> 8u16),
            rf == (p & 0xf800u16) >> 11u16,
            gf == (p & 0x07e0u16) >> 5u16,
            bf == p & 0x001fu16,
    ;
    let r = (rf as u8) * 8;
    let g = (gf as u8) * 4;
    let b = (bf as u8) * 8;
    (r, g, b)
}

} // verus!
