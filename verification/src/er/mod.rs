//! Entity-relationship diagrams.
pub mod database;
pub mod detector;
pub mod grammar;
pub mod layout;
pub mod lines;
pub mod parser;
pub mod renderer;
