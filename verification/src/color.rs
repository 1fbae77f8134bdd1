//! Colors of solid rectangles.

use vstd::prelude::*;

verus! {

/// An opaque color.
#[derive(Debug, Clone, Copy, PartialEq, Eq, Structural)]
pub struct Rgb {
    pub r: u8,
    pub g: u8,
    pub b: u8,
}

/// The color that the lowest 24 bits of a number write down: red, green, blue.
pub open spec fn color_of(hex: u32) -> Rgb {
    Rgb {
        r: ((hex / 0x10000) % 0x100) as u8,
        g: ((hex / 0x100) % 0x100) as u8,
        b: (hex % 0x100) as u8,
    }
}

/// The color that the lowest 24 bits of a number write down.
pub fn hex_to_rgb(hex: u32) -> (color: Rgb)
    ensures
        color == color_of(hex),
{
    Rgb {
        r: ((hex / 0x10000) % 0x100) as u8,
        g: ((hex / 0x100) % 0x100) as u8,
        b: (hex % 0x100) as u8,
    }
}

/// A number of 24 bits is put together again from the channels of its color,
/// red being the highest; higher bits do not matter.
pub proof fn channels_put_the_number_together(hex: u32)
    ensures
        color_of(hex).r * 0x10000 + color_of(hex).g * 0x100 + color_of(hex).b == hex % 0x100_0000,
{
}

} // verus!
