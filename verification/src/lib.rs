//! Figurehead: turn Mermaid diagram source into text-mode diagrams.
use crate::model::{CharacterSet, DiagramError, DiamondStyle, RenderConfig};
use crate::orchestrator::{detected, processed, DiagramKind, Orchestrator, Processed};
use crate::text::{from_chars, to_chars};
use vstd::prelude::*;

pub mod text;
pub mod scan;
pub mod canvas;
pub mod model;
pub mod er;
pub mod state;
pub mod pie;
pub mod orchestrator;
pub mod cli;

verus! {

/// The message given for a pie chart where text is asked for.
pub open spec fn pie_message() -> Seq<char> {
    seq![
        'p', 'i', 'e', ' ', 'c', 'h', 'a', 'r', 't', 's', ' ', 'a', 'r', 'e', ' ', 'd', 'r', 'a', 'w', 'n',
        ' ', 'f', 'r', 'o', 'm', ' ', 't', 'h', 'e', 'i', 'r', ' ', 'p', 'a', 'r', 's', 'e', 'd', ' ', 'l',
        'i', 'n', 'e', 's',
    ]
}

/// A text result seen as a pipeline result.
pub open spec fn as_processed(r: Result<String, DiagramError>) -> Result<Processed, DiagramError> {
    match r {
        Ok(s) => Ok(Processed::Text(s)),
        Err(e) => Err(e),
    }
}

/// What `render` gives: for a pie chart an error (its values are numbers in
/// text, drawn by the caller from `Orchestrator::process`); otherwise the
/// pipeline's result.
pub open spec fn rendered(input: Seq<char>, unicode: bool, r: Result<String, DiagramError>) -> bool {
    if detected(input) == Some(DiagramKind::Pie) {
        r matches Err(e) && e.message@ == pie_message()
    } else {
        processed(input, unicode, as_processed(r))
    }
}

fn finish(p: Result<Processed, DiagramError>) -> (r: Result<String, DiagramError>)
    ensures
        p matches Ok(Processed::Pie(_)) ==> r matches Err(e) && e.message@ == pie_message(),
        !(p matches Ok(Processed::Pie(_))) ==> as_processed(r) == p,
{
    match p {
        Ok(Processed::Text(s)) => Ok(s),
        Ok(Processed::Pie(_)) => {
            proof {
                reveal_strlit("pie charts are drawn from their parsed lines");
            }
            let m = from_chars(&to_chars("pie charts are drawn from their parsed lines"));
            assert(m@ =~= pie_message());
            Err(DiagramError::new(m))
        },
        Err(e) => Err(e),
    }
}

/// Detect the kind of a Mermaid source and draw it with Unicode characters.
pub fn render(input: &str) -> (r: Result<String, DiagramError>)
    ensures
        rendered(input@, true, r),
{
    let orchestrator = Orchestrator::with_all_plugins();
    finish(orchestrator.process(input))
}

/// Detect the kind of a Mermaid source and draw it; state diagrams use the
/// given characters, ER diagrams always use box-drawing characters.
pub fn render_with_style(input: &str, style: CharacterSet) -> (r: Result<String, DiagramError>)
    ensures
        rendered(input@, style != CharacterSet::Ascii, r),
{
    let orchestrator = Orchestrator::all_plugins(RenderConfig::new(style, DiamondStyle::Box));
    finish(orchestrator.process(input))
}

} // verus!
