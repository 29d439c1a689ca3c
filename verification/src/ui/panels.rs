//! Panels of the interface.

pub mod combat_view;
pub mod log_panel;
pub mod target_panel;
pub mod unit_panel;
