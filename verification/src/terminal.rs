//! Terminal presentation: styling, approval answers, and result rendering.
pub mod input;
pub mod render;
pub mod style;
