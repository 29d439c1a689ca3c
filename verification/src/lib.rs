//! Age of Sigmar combat sequence roller: dice expressions, the combat engine
//! and the state of a rolling session.

pub mod text;
pub mod combat;
pub mod data;
pub mod ui;
pub mod session;
