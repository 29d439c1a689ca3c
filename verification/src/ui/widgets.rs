//! Widgets of the interface.

pub mod dice_display;
pub mod phase_result;
