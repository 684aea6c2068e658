//! Colours and their packed pixel form.
use vstd::prelude::*;

verus! {

/// An sRGB colour with 8 bits per channel.
#[derive(Clone, Copy, Debug, PartialEq, Eq, Structural)]
pub struct Color {
    pub red: u8,
    pub green: u8,
    pub blue: u8,
}

/// The pixel word of a colour: `0x00RRGGBB`.
pub open spec fn packed_rgb(c: Color) -> u32 {
    (c.red as int * 65536 + c.green as int * 256 + c.blue as int) as u32
}

/// Relies on palette's `Srgb::<u8>::into_u32::<rgb::channels::Rgba>`: the
/// channels packed big-endian as `0xRRGGBBAA`, with the alpha of a colour
/// without one at its maximum, 255.
#[verifier::external_body]
fn pack_rgba(c: Color) -> (r: u32)
    ensures
        r as int == packed_rgb(c) as int * 256 + 255,
{
    palette::Srgb::new(c.red, c.green, c.blue).into_u32::<palette::rgb::channels::Rgba>()
}

impl Color {
    pub fn new(red: u8, green: u8, blue: u8) -> (r: Color)
        ensures
            r.red == red,
            r.green == green,
            r.blue == blue,
    {
        Color { red, green, blue }
    }

    /// The pixel word of this colour, `0x00RRGGBB`.
    pub fn to_pixel(&self) -> (r: u32)
        ensures
            r == packed_rgb(*self),
    {
        let rgba = pack_rgba(*self);
        let r = rgba >> 8;
        assert(r == rgba / 256) by (bit_vector)
            requires r == rgba >> 8;
        r
    }
}

} // verus!
