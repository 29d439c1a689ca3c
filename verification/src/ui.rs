//! What the interface shows, apart from drawing it.

pub mod panels;
pub mod widgets;
