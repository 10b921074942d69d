//! What is drawn, before it is painted.

pub mod bottom;
pub mod line;
pub mod panes;
pub mod text;
