//! State diagrams: database, parser, layout and renderer.
pub mod database;
pub mod grammar;
pub mod parser;
pub mod ranks;
pub mod layout;
pub mod picture;
pub mod renderer;
pub mod placement;
pub mod ascii;
pub mod visible;
pub mod geometry;

use vstd::prelude::*;

verus! {

/// The state diagram kind: its parser, database and renderer.
pub struct StateDiagram;

impl StateDiagram {
    /// A parser for the kind.
    pub fn create_parser() -> (r: parser::StateParser) {
        parser::StateParser::new()
    }

    /// An empty database for the kind.
    pub fn create_database() -> (r: database::StateDatabase)
        ensures
            r.wf(),
            r.state_views().len() == 0,
            r.transition_views().len() == 0,
            r.note_views().len() == 0,
    {
        database::StateDatabase::new()
    }

    /// A renderer for the kind, with Unicode characters.
    pub fn create_renderer() -> (r: renderer::StateRenderer)
        ensures
            r.unicode(),
    {
        renderer::StateRenderer::new()
    }

    /// The name of the diagram kind.
    pub fn name() -> (r: &'static str)
        ensures
            r@ == "state"@,
    {
        "state"
    }

    /// The version of the plugin.
    pub fn version() -> (r: &'static str)
        ensures
            r@ == "0.1.0"@,
    {
        "0.1.0"
    }
}

} // verus!
