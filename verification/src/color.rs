//! Pixel colours.

use embedded_graphics::pixelcolor::raw::{RawData, RawU16};
use vstd::prelude::*;

verus! {

/// A colour by its channels: 5 bits of red, 6 of green, 5 of blue. The unused
/// high bits of a channel are ignored.
#[derive(Clone, Copy, PartialEq, Eq, Debug, Structural)]
pub struct Rgb565 {
    /// Red.
    pub r: u8,
    /// Green.
    pub g: u8,
    /// Blue.
    pub b: u8,
}

impl Rgb565 {
    /// The halfword that the panel is sent for this colour: red in the upper
    /// five bits, green in the middle six, blue in the lower five.
    pub open spec fn packed(self) -> u16 {
        ((self.r % 32) * 2048 + (self.g % 64) * 32 + self.b % 32) as u16
    }

    /// Calls embedded-graphics' `RawU16::from(color).into_inner()` on the
    /// `Rgb565::new` of the channels. Trusted: the channels are cut to 5, 6 and 5
    /// bits and packed red, green, blue from the highest bit down.
    #[verifier::external_body]
    pub(crate) fn raw(self) -> (raw: u16)
        ensures
            raw == self.packed(),
    {
        let color = embedded_graphics::pixelcolor::Rgb565::new(self.r, self.g, self.b);
        RawU16::from(color).into_inner()
    }
}

} // verus!
