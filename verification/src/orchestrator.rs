//! Picks the plugin for a source text and runs it: detection, parsing and
//! drawing in one call.
use crate::er::database::ErDatabase;
use crate::er::detector::{er_confidence, ErDetector};
use crate::er::grammar::sp_diagram;
use crate::er::layout::{er_fits, layout_ok, spacing_spec, ErLayoutResult, BOX_SPACING};
use crate::er::parser::{apply_statements, entities_view, relationships_view, ErParser};
use crate::er::renderer::{er_picture, ErRenderer};
use crate::model::{CharacterSet, DiagramError, RenderConfig};
use crate::pie::detector::{pie_confidence, PieDetector};
use crate::pie::parser::{pie_line_view, pie_source, PieLine, PieParser};
use crate::state::database::StateDatabase;
use crate::state::grammar::{apply_actions, source_actions, state_source, unknown_note, DbModel};
use crate::state::layout::{state_fits, state_layout_ok, StateLayoutResult};
use crate::state::parser::{db_model, unknown_message, StateParser};
use crate::state::picture::state_picture;
use crate::state::renderer::StateRenderer;
use crate::text::{from_chars, to_chars};
use vstd::prelude::*;

verus! {

/// The kinds of diagram this library reads.
#[derive(Clone, Copy, Debug, PartialEq, Eq, Structural)]
pub enum DiagramKind {
    Pie,
    Er,
    State,
}

/// The kind a source is taken for: a pie chart when its first line is a pie
/// header, else an ER diagram when the ER detector is more than half sure,
/// else a state diagram when it starts with `stateDiagram` or mentions
/// `[*]`; otherwise none.
pub open spec fn detected(input: Seq<char>) -> Option<DiagramKind> {
    if pie_confidence(input) > 50 {
        Some(DiagramKind::Pie)
    } else if er_confidence(input) > 50 {
        Some(DiagramKind::Er)
    } else if state_source(input) {
        Some(DiagramKind::State)
    } else {
        None
    }
}

/// The name under which a kind is reported.
pub open spec fn kind_name(k: DiagramKind) -> Seq<char> {
    match k {
        DiagramKind::Pie => seq!['p', 'i', 'e'],
        DiagramKind::Er => seq!['e', 'r'],
        DiagramKind::State => seq!['s', 't', 'a', 't', 'e'],
    }
}

/// The message for a source of no known kind.
pub open spec fn unknown_kind_message() -> Seq<char> {
    seq![
        'U', 'n', 'k', 'n', 'o', 'w', 'n', ' ', 'd', 'i', 'a', 'g', 'r', 'a', 'm', ' ', 't', 'y', 'p', 'e',
    ]
}

/// What processing a source gives: the drawn diagram, or, for a pie chart,
/// the lines of the source as read, whose values are numbers in text that
/// the caller turns into a chart.
#[derive(Clone, Debug)]
pub enum Processed {
    Text(String),
    Pie(Vec<PieLine>),
}

/// A state database with nothing in it, as the parser sees it.
pub open spec fn empty_model() -> DbModel {
    (Seq::empty(), Seq::empty(), Seq::empty(), false, false)
}

/// What drawing an ER database gives: an error exactly when it is too large
/// to lay out, else the picture of a layout of it.
pub open spec fn er_outcome(db: &ErDatabase, r: Result<Processed, DiagramError>) -> bool {
    match r {
        Ok(Processed::Text(s)) => er_fits(db) && exists|res: ErLayoutResult|
            layout_ok(db, res, spacing_spec(db, BOX_SPACING as int)) && s@ == er_picture(res),
        Ok(Processed::Pie(_)) => false,
        Err(_) => !er_fits(db),
    }
}

/// What drawing a parsed state database gives: the parser's error for a note
/// on an unknown state; else an error exactly when the diagram is too large
/// to lay out, and otherwise the picture of a layout of it.
pub open spec fn state_outcome(db: &StateDatabase, unicode: bool, r: Result<Processed, DiagramError>) -> bool {
    let too_large = db.state_views().len() > 0 && !state_fits(
        db.state_views(),
        db.transition_views(),
        db.note_views(),
    );
    match unknown_note(db_model(db)) {
        Some(id) => r matches Err(e) && e.message@ == unknown_message(id),
        None => match r {
            Ok(Processed::Text(s)) => !too_large && exists|l: StateLayoutResult|
                state_layout_ok(db, l) && s@ == state_picture(l, unicode),
            Ok(Processed::Pie(_)) => false,
            Err(_) => too_large,
        },
    }
}

/// The whole pipeline's result for a source drawn with the given characters.
pub open spec fn processed(input: Seq<char>, unicode: bool, r: Result<Processed, DiagramError>) -> bool {
    match detected(input) {
        None => r matches Err(e) && e.message@ == unknown_kind_message(),
        Some(DiagramKind::Pie) => r matches Ok(Processed::Pie(lines)) && lines@.map_values(
            |p: PieLine| pie_line_view(p),
        ) == pie_source(input),
        Some(DiagramKind::Er) => match sp_diagram(input) {
            None => r is Err,
            Some(stmts) => exists|db: ErDatabase|
                (entities_view(&db), relationships_view(&db)) == apply_statements(
                    (Seq::empty(), Seq::empty()),
                    stmts,
                ) && er_outcome(&db, r),
        },
        Some(DiagramKind::State) => exists|db: StateDatabase|
            db.wf() && db_model(&db) == apply_actions(empty_model(), source_actions(input))
                && state_outcome(&db, unicode, r),
    }
}

/// Runs the diagram plugins under one render configuration.
pub struct Orchestrator {
    config: RenderConfig,
}

impl Orchestrator {
    /// An orchestrator with every plugin, drawing under `config`.
    pub fn all_plugins(config: RenderConfig) -> (r: Self)
        ensures
            r.config() == config,
    {
        Orchestrator { config }
    }

    /// An orchestrator with every plugin and the default configuration.
    pub fn with_all_plugins() -> (r: Self)
        ensures
            r.config().style == CharacterSet::Unicode,
            r.config().diamond_style == crate::model::DiamondStyle::Box,
            !r.config().color,
    {
        Orchestrator { config: RenderConfig::default_config() }
    }

    pub closed spec fn config(&self) -> RenderConfig {
        self.config
    }

    /// Whether drawings use Unicode characters.
    pub open spec fn unicode(&self) -> bool {
        self.config().style != CharacterSet::Ascii
    }

    /// The configuration drawings are made under.
    pub fn render_config(&self) -> (r: RenderConfig)
        ensures
            r == self.config(),
    {
        self.config
    }

    /// The kind of diagram the source is taken for.
    pub fn detect(&self, input: &str) -> (r: Option<DiagramKind>)
        ensures
            r == detected(input@),
    {
        if PieDetector::new().detect(input) {
            Some(DiagramKind::Pie)
        } else if ErDetector::new().detect(input) {
            Some(DiagramKind::Er)
        } else if StateParser::new().can_parse(input) {
            Some(DiagramKind::State)
        } else {
            None
        }
    }

    /// The name of the kind of diagram the source is taken for, or an
    /// error when it is of no known kind.
    pub fn detect_diagram_type(&self, input: &str) -> (r: Result<String, DiagramError>)
        ensures
            match detected(input@) {
                Some(k) => r matches Ok(s) && s@ == kind_name(k),
                None => r matches Err(e) && e.message@ == unknown_kind_message(),
            },
    {
        match self.detect(input) {
            Some(k) => {
                let name = match k {
                    DiagramKind::Pie => "pie",
                    DiagramKind::Er => "er",
                    DiagramKind::State => "state",
                };
                proof {
                    reveal_strlit("pie");
                    reveal_strlit("er");
                    reveal_strlit("state");
                }
                let s = from_chars(&to_chars(name));
                assert(s@ =~= kind_name(k));
                Ok(s)
            },
            None => Err(unknown_kind()),
        }
    }

    /// Detect, parse and draw a source.
    pub fn process(&self, input: &str) -> (r: Result<Processed, DiagramError>)
        ensures
            processed(input@, self.unicode(), r),
    {
        match self.detect(input) {
            None => Err(unknown_kind()),
            Some(DiagramKind::Pie) => Ok(Processed::Pie(PieParser::new().parse_lines(input))),
            Some(DiagramKind::Er) => {
                let mut database = ErDatabase::new();
                proof {
                    assert(entities_view(&database) =~= Seq::empty());
                    assert(relationships_view(&database) =~= Seq::empty());
                }
                match ErParser::new().parse(input, &mut database) {
                    Err(e) => Err(e),
                    Ok(()) => {
                        let r = match ErRenderer::new().render_database(&database) {
                            Ok(s) => Ok(Processed::Text(s)),
                            Err(e) => Err(e),
                        };
                        assert(er_outcome(&database, r));
                        r
                    },
                }
            },
            Some(DiagramKind::State) => {
                let mut database = StateDatabase::new();
                assert(db_model(&database) =~= empty_model());
                let parsed = StateParser::new().parse(input, &mut database);
                let r = match parsed {
                    Err(e) => Err(e),
                    Ok(()) => {
                        let renderer = StateRenderer::with_style(self.config.style);
                        match renderer.render(&database) {
                            Ok(s) => Ok(Processed::Text(s)),
                            Err(e) => Err(e),
                        }
                    },
                };
                assert(state_outcome(&database, self.unicode(), r));
                r
            },
        }
    }
}

/// The error for a source of no known kind.
fn unknown_kind() -> (r: DiagramError)
    ensures
        r.message@ == unknown_kind_message(),
{
    proof {
        reveal_strlit("Unknown diagram type");
    }
    let s = from_chars(&to_chars("Unknown diagram type"));
    assert(s@ =~= unknown_kind_message());
    DiagramError::new(s)
}

} // verus!
