//! The command-line application's options and the decisions it makes
//! between reading its input and writing its output.
use crate::model::{CharacterSet, DiamondStyle, RenderConfig};
use crate::orchestrator::Orchestrator;
use crate::text::{from_chars, to_chars};
use vstd::prelude::*;

verus! {

/// Log level options.
#[derive(Clone, Copy, Debug, PartialEq, Eq, Structural)]
pub enum LogLevel {
    Trace,
    Debug,
    Info,
    Warn,
    Error,
}

/// The name of a log level.
pub open spec fn log_level_name(l: LogLevel) -> Seq<char> {
    match l {
        LogLevel::Trace => seq!['t', 'r', 'a', 'c', 'e'],
        LogLevel::Debug => seq!['d', 'e', 'b', 'u', 'g'],
        LogLevel::Info => seq!['i', 'n', 'f', 'o'],
        LogLevel::Warn => seq!['w', 'a', 'r', 'n'],
        LogLevel::Error => seq!['e', 'r', 'r', 'o', 'r'],
    }
}

impl LogLevel {
    /// The level's name in lower case.
    pub fn as_str(&self) -> (r: &'static str)
        ensures
            r@ == log_level_name(*self),
    {
        proof {
            reveal_strlit("trace");
            reveal_strlit("debug");
            reveal_strlit("info");
            reveal_strlit("warn");
            reveal_strlit("error");
        }
        match self {
            LogLevel::Trace => "trace",
            LogLevel::Debug => "debug",
            LogLevel::Info => "info",
            LogLevel::Warn => "warn",
            LogLevel::Error => "error",
        }
    }
}

/// Log format options.
#[derive(Clone, Copy, Debug, PartialEq, Eq, Structural)]
pub enum LogFormat {
    Compact,
    Pretty,
    Json,
}

/// The name of a log format.
pub open spec fn log_format_name(f: LogFormat) -> Seq<char> {
    match f {
        LogFormat::Compact => seq!['c', 'o', 'm', 'p', 'a', 'c', 't'],
        LogFormat::Pretty => seq!['p', 'r', 'e', 't', 't', 'y'],
        LogFormat::Json => seq!['j', 's', 'o', 'n'],
    }
}

impl LogFormat {
    /// The format's name in lower case.
    pub fn as_str(&self) -> (r: &'static str)
        ensures
            r@ == log_format_name(*self),
    {
        proof {
            reveal_strlit("compact");
            reveal_strlit("pretty");
            reveal_strlit("json");
        }
        match self {
            LogFormat::Compact => "compact",
            LogFormat::Pretty => "pretty",
            LogFormat::Json => "json",
        }
    }
}

/// Supported output character sets.
#[derive(Clone, Copy, Debug, PartialEq, Eq, Structural)]
pub enum StyleChoice {
    Ascii,
    Unicode,
    UnicodeMath,
    Compact,
}

/// The character set a style option selects.
pub open spec fn style_set(s: StyleChoice) -> CharacterSet {
    match s {
        StyleChoice::Ascii => CharacterSet::Ascii,
        StyleChoice::Unicode => CharacterSet::Unicode,
        StyleChoice::UnicodeMath => CharacterSet::UnicodeMath,
        StyleChoice::Compact => CharacterSet::Compact,
    }
}

impl From<StyleChoice> for CharacterSet {
    fn from(value: StyleChoice) -> (r: Self) {
        match value {
            StyleChoice::Ascii => CharacterSet::Ascii,
            StyleChoice::Unicode => CharacterSet::Unicode,
            StyleChoice::UnicodeMath => CharacterSet::UnicodeMath,
            StyleChoice::Compact => CharacterSet::Compact,
        }
    }
}

impl vstd::std_specs::convert::FromSpecImpl<StyleChoice> for CharacterSet {
    open spec fn obeys_from_spec() -> bool {
        true
    }

    open spec fn from_spec(v: StyleChoice) -> Self {
        style_set(v)
    }
}

/// Diamond (decision node) rendering styles.
#[derive(Clone, Copy, Debug, PartialEq, Eq, Structural)]
pub enum DiamondChoice {
    /// A compact three-line box.
    Box,
    /// A single line between two diamond glyphs.
    Inline,
    /// A tall diamond of slashes.
    Tall,
}

/// The diamond style a diamond option selects.
pub open spec fn diamond_style(d: DiamondChoice) -> DiamondStyle {
    match d {
        DiamondChoice::Box => DiamondStyle::Box,
        DiamondChoice::Inline => DiamondStyle::Inline,
        DiamondChoice::Tall => DiamondStyle::Tall,
    }
}

impl Default for DiamondChoice {
    fn default() -> (r: Self)
        ensures
            r == DiamondChoice::Box,
    {
        DiamondChoice::Box
    }
}

impl From<DiamondChoice> for DiamondStyle {
    fn from(value: DiamondChoice) -> (r: Self) {
        match value {
            DiamondChoice::Box => DiamondStyle::Box,
            DiamondChoice::Inline => DiamondStyle::Inline,
            DiamondChoice::Tall => DiamondStyle::Tall,
        }
    }
}

impl vstd::std_specs::convert::FromSpecImpl<DiamondChoice> for DiamondStyle {
    open spec fn obeys_from_spec() -> bool {
        true
    }

    open spec fn from_spec(v: DiamondChoice) -> Self {
        diamond_style(v)
    }
}

/// When to colorize output.
#[derive(Clone, Copy, Debug, PartialEq, Eq, Structural)]
pub enum ColorChoice {
    /// When the output is a terminal and `NO_COLOR` is not set.
    Auto,
    /// Always.
    Always,
    /// Never.
    Never,
}

impl Default for ColorChoice {
    fn default() -> (r: Self)
        ensures
            r == ColorChoice::Auto,
    {
        ColorChoice::Auto
    }
}

/// The application's commands. A path of `-` stands for the standard
/// streams, as does a missing one.
#[derive(Clone, Debug)]
pub enum Commands {
    /// Convert a diagram to text.
    Convert {
        input: Option<String>,
        output: Option<String>,
        skip_detection: bool,
        style: StyleChoice,
        diamond: DiamondChoice,
        color: ColorChoice,
    },
    /// Name the kind of diagram in the input.
    Detect { input: Option<String> },
    /// List the supported diagram kinds.
    Types { json: bool },
    /// Check that the input is a diagram that can be drawn.
    Validate { input: Option<String> },
}

/// The parsed command line.
#[derive(Clone, Debug)]
pub struct Cli {
    pub command: Commands,
    pub verbose: bool,
    pub log_level: LogLevel,
    pub log_format: LogFormat,
}

/// Whether an output path means the standard output.
pub open spec fn to_stdout(output: Option<Seq<char>>) -> bool {
    match output {
        None => true,
        Some(p) => p == seq!['-'],
    }
}

/// Whether output is colorized: as the option says, and for `Auto` only
/// when `NO_COLOR` is unset and the output is the standard output and a
/// terminal.
pub open spec fn colorize(color: ColorChoice, output: Option<Seq<char>>, no_color: bool, tty: bool) -> bool {
    match color {
        ColorChoice::Always => true,
        ColorChoice::Never => false,
        ColorChoice::Auto => !no_color && to_stdout(output) && tty,
    }
}

/// The text written to the standard output: the content, with a line end
/// added unless it is empty or already ends with one.
pub open spec fn stdout_text(content: Seq<char>) -> Seq<char> {
    if content.len() == 0 || content.last() == '\n' {
        content
    } else {
        content.push('\n')
    }
}

/// The main application: an orchestrator and the choices around it.
pub struct FigureheadApp {
    orchestrator: Orchestrator,
}

impl FigureheadApp {
    /// An application with the default configuration.
    pub fn new() -> (r: Self)
        ensures
            r.orchestrator_spec().config().style == CharacterSet::Unicode,
            r.orchestrator_spec().config().diamond_style == DiamondStyle::Box,
            !r.orchestrator_spec().config().color,
    {
        Self::with_config(RenderConfig::default_config())
    }

    /// An application drawing under `config`.
    pub fn with_config(config: RenderConfig) -> (r: Self)
        ensures
            r.orchestrator_spec().config() == config,
    {
        FigureheadApp { orchestrator: Orchestrator::all_plugins(config) }
    }

    pub closed spec fn orchestrator_spec(&self) -> Orchestrator {
        self.orchestrator
    }

    /// The render configuration for a style and a diamond option.
    pub fn build_config(style: StyleChoice, diamond: DiamondChoice) -> (r: RenderConfig)
        ensures
            r.style == style_set(style),
            r.diamond_style == diamond_style(diamond),
            !r.color,
    {
        RenderConfig::new(CharacterSet::from(style), DiamondStyle::from(diamond))
    }

    /// Switch to the configuration a convert command asks for.
    pub fn configure(&mut self, style: StyleChoice, diamond: DiamondChoice, colorize: bool)
        ensures
            final(self).orchestrator_spec().config().style == style_set(style),
            final(self).orchestrator_spec().config().diamond_style == diamond_style(diamond),
            final(self).orchestrator_spec().config().color == colorize,
    {
        let config = Self::build_config(style, diamond).with_color(colorize);
        self.orchestrator = Orchestrator::all_plugins(config);
    }

    /// The orchestrator.
    pub fn orchestrator(&self) -> (r: &Orchestrator)
        ensures
            *r == self.orchestrator_spec(),
    {
        &self.orchestrator
    }

    /// The orchestrator, to change.
    pub fn orchestrator_mut(&mut self) -> (r: &mut Orchestrator)
        ensures
            *r == old(self).orchestrator_spec(),
            final(self).orchestrator_spec() == *final(r),
    {
        &mut self.orchestrator
    }

    /// Whether output is colorized, given whether `NO_COLOR` is set and
    /// whether the standard output is a terminal.
    pub fn should_colorize(output: &Option<String>, color: ColorChoice, no_color: bool, tty: bool) -> (r: bool)
        ensures
            r == colorize(color, output_view(*output), no_color, tty),
    {
        match color {
            ColorChoice::Always => true,
            ColorChoice::Never => false,
            ColorChoice::Auto => {
                if no_color {
                    return false;
                }
                let stdout = match output {
                    None => true,
                    Some(p) => {
                        let v = to_chars(p.as_str());
                        proof {
                            reveal_strlit("-");
                        }
                        let dash = to_chars("-");
                        assert(dash@ =~= seq!['-']);
                        crate::text::same_chars(&v, &dash)
                    },
                };
                stdout && tty
            },
        }
    }

    /// The text to write to the standard output for `content`.
    pub fn stdout_content(content: &str) -> (r: String)
        ensures
            r@ == stdout_text(content@),
    {
        let mut v = to_chars(content);
        if v.len() > 0 && v[v.len() - 1] != '\n' {
            v.push('\n');
        }
        from_chars(&v)
    }
}

impl Default for FigureheadApp {
    fn default() -> (r: Self)
        ensures
            r.orchestrator_spec().config().style == CharacterSet::Unicode,
            r.orchestrator_spec().config().diamond_style == DiamondStyle::Box,
            !r.orchestrator_spec().config().color,
    {
        Self::new()
    }
}

/// An optional string by its characters.
pub open spec fn output_view(o: Option<String>) -> Option<Seq<char>> {
    match o {
        Some(s) => Some(s@),
        None => None,
    }
}

} // verus!
