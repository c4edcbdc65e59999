//! Recognises ER diagram source.
use crate::text::{contains, contains_seq, has_prefix, lowercase, starts_with, to_chars, to_lowercase, trim, trimmed};
use vstd::prelude::*;

verus! {

/// The connector fragments that betray an ER relationship.
pub open spec fn er_markers() -> Seq<Seq<char>> {
    seq!["||--"@, "}o--"@, "}|--"@, "|o--"@, "--o{"@, "--||"@, "--}o"@, "--}|"@, "--o|"@]
}

/// How sure the detector is, in percent: certain when the lower-cased,
/// trimmed input starts with `erdiagram`, fairly sure when a relationship
/// connector occurs, otherwise not at all.
pub open spec fn er_confidence(input: Seq<char>) -> u32 {
    if has_prefix(trim(lowercase(input)), "erdiagram"@) {
        100
    } else if exists|k: int| 0 <= k < er_markers().len() && contains_seq(input, #[trigger] er_markers()[k]) {
        80
    } else {
        0
    }
}

/// Detector for ER diagrams.
pub struct ErDetector;

impl ErDetector {
    /// A detector.
    pub fn new() -> (r: Self) {
        ErDetector
    }

    /// Confidence, in percent, that `input` is an ER diagram.
    pub fn confidence(&self, input: &str) -> (r: u32)
        ensures
            r == er_confidence(input@),
    {
        let v = to_chars(input);
        let lower = trimmed(&to_lowercase(&v));
        if starts_with(&lower, &to_chars("erdiagram")) {
            return 100;
        }
        let markers = [
            "||--",
            "}o--",
            "}|--",
            "|o--",
            "--o{",
            "--||",
            "--}o",
            "--}|",
            "--o|",
        ];
        let mut k: usize = 0;
        while k < 9
            invariant
                k <= 9,
                v@ == input@,
                !has_prefix(trim(lowercase(input@)), "erdiagram"@),
                markers@.len() == 9,
                forall|m: int| 0 <= m < 9 ==> #[trigger] markers@[m]@ == er_markers()[m],
                forall|m: int| 0 <= m < k ==> !contains_seq(input@, #[trigger] er_markers()[m]),
            decreases 9 - k,
        {
            let m: &str = markers[k];
            assert(m == markers@[k as int]);
            let mc = to_chars(m);
            let found = contains(&v, &mc);
            assert(mc@ == er_markers()[k as int]);
            if found {
                assert(contains_seq(input@, er_markers()[k as int]));
                return 80;
            }
            k += 1;
        }
        0
    }

    /// Whether `input` is taken for an ER diagram (confidence above one half).
    pub fn detect(&self, input: &str) -> (r: bool)
        ensures
            r == (er_confidence(input@) > 50),
    {
        self.confidence(input) > 50
    }

    /// The diagram type this detector recognises.
    pub fn diagram_type(&self) -> (r: &'static str)
        ensures
            r@ == "er"@,
    {
        "er"
    }

    /// The source fragments this detector looks for.
    pub fn patterns(&self) -> (r: Vec<&'static str>)
        ensures
            r@.len() == 1,
            r@[0]@ == "erDiagram"@,
    {
        vec!["erDiagram"]
    }
}

} // verus!
