//! Per-pane status icons shared across plugin instances, and the line
//! protocol that feeds them.

pub mod decimal;
pub mod text;
pub mod icons;
pub mod laws;
pub mod clock;
pub mod named;
pub mod pipe;
pub mod effects;
