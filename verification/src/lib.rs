//! Driver for the Riverdi RVA35HI-NUC144A display shield (ILI9488, 480x320)
//! on the FMC bus of an STM32U5.

pub mod builder;
pub mod bus;
pub mod color;
pub mod display;
pub mod fmc;
pub mod geometry;
pub mod gpio;
pub mod init;
pub mod laws;
pub mod model;
pub mod ops;
pub mod queue;
pub mod record;

pub use builder::{DisplayBuilder, DisplayPins};
pub use display::Display;

use vstd::prelude::*;

verus! {

/// Panel width in pixels, in the landscape orientation that the bring-up sets.
pub const PANEL_W: u16 = 480;

/// Panel height in pixels (companion to [`PANEL_W`]).
pub const PANEL_H: u16 = 320;

} // verus!
