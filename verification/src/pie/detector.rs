//! Recognises pie chart source.
use crate::state::grammar::lines_of;
use crate::text::{has_prefix, lowercase, trim_start};
use vstd::prelude::*;

verus! {

/// The first line of the source after leading whitespace, itself without
/// leading whitespace (empty when there is none).
pub open spec fn first_line(input: Seq<char>) -> Seq<char> {
    let ls = lines_of(trim_start(input));
    if ls.len() == 0 {
        Seq::empty()
    } else {
        trim_start(ls[0])
    }
}

/// Whether the lower-cased text is the header keyword `pie`, alone or
/// followed by a space.
pub open spec fn pie_keyword(lower: Seq<char>) -> bool {
    lower == seq!['p', 'i', 'e'] || has_prefix(lower, seq!['p', 'i', 'e', ' '])
}

/// Confidence, in percent: certain when the first line is a pie header.
pub open spec fn pie_confidence(input: Seq<char>) -> u32 {
    if pie_keyword(lowercase(first_line(input))) {
        100
    } else {
        0
    }
}

/// Detector for pie charts.
pub struct PieDetector;

impl PieDetector {
    pub fn new() -> (r: Self) {
        PieDetector
    }

    /// Confidence, in percent, that `input` is a pie chart.
    pub fn confidence(&self, input: &str) -> (r: u32)
        ensures
            r == pie_confidence(input@),
    {
        let t = crate::text::trimmed_start(&crate::text::to_chars(input));
        let lines = crate::state::parser::split_lines(&t);
        let first = if lines.len() == 0 {
            Vec::new()
        } else {
            assert(lines@.map_values(|l: Vec<char>| l@)[0] == lines@[0]@);
            crate::text::trimmed_start(&lines[0])
        };
        assert(first@ == first_line(input@));
        let lower = crate::text::to_lowercase(&first);
        let pie = crate::text::to_chars("pie");
        let pie_sp = crate::text::to_chars("pie ");
        proof {
            reveal_strlit("pie");
            reveal_strlit("pie ");
        }
        assert(pie@ =~= seq!['p', 'i', 'e']);
        assert(pie_sp@ =~= seq!['p', 'i', 'e', ' ']);
        if crate::text::same_chars(&lower, &pie) || crate::text::starts_with(&lower, &pie_sp) {
            100
        } else {
            0
        }
    }

    /// Whether `input` is taken for a pie chart.
    pub fn detect(&self, input: &str) -> (r: bool)
        ensures
            r == (pie_confidence(input@) > 50),
    {
        self.confidence(input) > 50
    }

    /// The diagram type this detector recognises.
    pub fn diagram_type(&self) -> (r: &'static str)
        ensures
            r@ == "pie"@,
    {
        "pie"
    }

    /// The source fragments this detector looks for.
    pub fn patterns(&self) -> (r: Vec<&'static str>)
        ensures
            r@.len() == 4,
            r@[0]@ == "pie"@,
            r@[1]@ == "showData"@,
            r@[2]@ == "title"@,
            r@[3]@ == "\"label\" : value"@,
    {
        vec!["pie", "showData", "title", "\"label\" : value"]
    }
}

} // verus!
