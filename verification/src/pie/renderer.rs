//! The symbols and colours of a pie chart's slices.
use crate::model::RenderConfig;
use vstd::prelude::*;

verus! {

/// The symbols that mark the slices, in order.
pub open spec fn symbols() -> Seq<char> {
    "123456789ABCDEFGHIJKLMNOPQRSTUVWXYZabcdefghijklmnopqrstuvwxyz"@
}

/// The terminal colour codes the slices cycle through.
pub open spec fn colors() -> Seq<u8> {
    seq![31u8, 32, 33, 34, 35, 36, 91, 92, 93, 94, 95, 96]
}

/// The symbol of slice `i`: one of the sixty-one symbols, then `*`.
pub open spec fn symbol_spec(i: int) -> char {
    if 0 <= i < symbols().len() {
        symbols()[i]
    } else {
        '*'
    }
}

pub open spec fn digits() -> Seq<char> {
    seq!['0', '1', '2', '3', '4', '5', '6', '7', '8', '9']
}

/// The two decimal digits of a colour code.
pub open spec fn code_text(c: u8) -> Seq<char> {
    seq![digits()[(c / 10) as int], digits()[(c % 10) as int]]
}

/// The text of slice `i`'s symbol: coloured with an ANSI escape when
/// colour is on, bare otherwise.
pub open spec fn symbol_text(color: bool, i: int) -> Seq<char> {
    if color {
        seq!['\x1b', '['] + code_text(colors()[i % 12]) + seq!['m', symbol_spec(i), '\x1b', '[', '0', 'm']
    } else {
        seq![symbol_spec(i)]
    }
}

/// Renderer of pie chart symbols.
pub struct PieRenderer {
    pub color: bool,
}

impl PieRenderer {
    /// A renderer with colour.
    pub fn new() -> (r: Self)
        ensures
            r.color,
    {
        PieRenderer { color: true }
    }

    /// A renderer with colour; the configuration is not used.
    pub fn with_config(config: RenderConfig) -> (r: Self)
        ensures
            r.color,
    {
        let _ = config;
        Self::new()
    }

    /// A renderer with colour on or off.
    pub fn with_color(color: bool) -> (r: Self)
        ensures
            r.color == color,
    {
        PieRenderer { color }
    }

    /// The renderer's name.
    pub fn name(&self) -> (r: &'static str)
        ensures
            r@ == "ascii"@,
    {
        "ascii"
    }

    /// The renderer's version.
    pub fn version(&self) -> (r: &'static str)
        ensures
            r@ == "0.1.0"@,
    {
        "0.1.0"
    }

    /// The output format.
    pub fn format(&self) -> (r: &'static str)
        ensures
            r@ == "ascii"@,
    {
        "ascii"
    }

    /// The symbol of slice `index`.
    pub fn symbol(index: usize) -> (r: char)
        ensures
            r == symbol_spec(index as int),
    {
        let all = crate::text::to_chars("123456789ABCDEFGHIJKLMNOPQRSTUVWXYZabcdefghijklmnopqrstuvwxyz");
        proof {
            reveal_strlit("123456789ABCDEFGHIJKLMNOPQRSTUVWXYZabcdefghijklmnopqrstuvwxyz");
        }
        if index < all.len() {
            all[index]
        } else {
            '*'
        }
    }

    /// The colour code of slice `index`.
    pub fn color_code(index: usize) -> (r: u8)
        ensures
            r == colors()[index as int % 12],
    {
        let codes: [u8; 12] = [31, 32, 33, 34, 35, 36, 91, 92, 93, 94, 95, 96];
        assert(codes@ =~= colors());
        codes[index % 12]
    }

    /// The text of slice `index`'s symbol, coloured when colour is on.
    pub fn render_symbol(&self, index: usize) -> (r: String)
        ensures
            r@ == symbol_text(self.color, index as int),
    {
        let symbol = Self::symbol(index);
        let mut s = String::new();
        if self.color {
            let code = Self::color_code(index);
            let ds: [char; 10] = ['0', '1', '2', '3', '4', '5', '6', '7', '8', '9'];
            assert(ds@ =~= digits());
            assert(code < 100);
            s.push('\x1b');
            s.push('[');
            s.push(ds[(code / 10) as usize]);
            s.push(ds[(code % 10) as usize]);
            s.push('m');
            s.push(symbol);
            s.push('\x1b');
            s.push('[');
            s.push('0');
            s.push('m');
            assert(s@ =~= symbol_text(self.color, index as int));
        } else {
            s.push(symbol);
            assert(s@ =~= symbol_text(self.color, index as int));
        }
        s
    }
}

/// A pie chart diagram kind.
pub struct PieDiagram;

impl PieDiagram {
    /// The name of the diagram kind.
    pub fn name() -> (r: &'static str)
        ensures
            r@ == "pie"@,
    {
        "pie"
    }

    /// The version of the plugin.
    pub fn version() -> (r: &'static str)
        ensures
            r@ == "0.1.0"@,
    {
        "0.1.0"
    }

    /// The detector for the kind.
    pub fn detector() -> (r: super::detector::PieDetector) {
        super::detector::PieDetector::new()
    }

    /// A parser for the kind.
    pub fn create_parser() -> (r: super::parser::PieParser) {
        super::parser::PieParser::new()
    }

    /// A renderer for the kind, with colour.
    pub fn create_renderer() -> (r: PieRenderer)
        ensures
            r.color,
    {
        PieRenderer::new()
    }
}

} // verus!
