//! Divider search for a PLL clock generator: given an input oscillator, a
//! requested output frequency and the hardware limits, find the reference,
//! feedback and post dividers that come nearest, with exact division.

pub mod defaults;
pub mod pll;
