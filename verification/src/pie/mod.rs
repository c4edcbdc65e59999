//! Pie charts: detection, reading of the source lines, and the symbols of
//! the legend.
pub mod detector;
pub mod parser;
pub mod renderer;
