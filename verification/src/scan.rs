//! Character classes and scanning, the building blocks of the parsers.
use crate::text::{alnum, is_alphanumeric, is_space, is_whitespace};
use vstd::prelude::*;

verus! {

/// The character classes that the grammars scan runs of.
#[derive(Clone, Copy, Debug, PartialEq, Eq, Structural)]
pub enum CharClass {
    /// A space or a tab.
    InlineSpace,
    /// Any whitespace character.
    Space,
    /// Anything but whitespace delimiters, braces, brackets, quotes, `|`, `:`, `;` and `,`.
    IdentChar,
    /// Anything but whitespace delimiters, braces, quotes, `|`, `:`, `;` and `.`.
    TypeChar,
    /// Anything but a double quote or a line break.
    QuotedChar,
    /// Anything but a newline.
    NotNewline,
    /// Anything but a space, tab or line break.
    NotBlank,
    /// An ASCII letter, an ASCII digit or `_`.
    WordChar,
    /// An alphanumeric character (in Unicode's sense) or `_`.
    NameChar,
    /// Anything but a double quote.
    NotQuote,
}

/// Whether `c` belongs to the class `k`.
pub open spec fn in_class(k: CharClass, c: char) -> bool {
    let blank = c == ' ' || c == '\t' || c == '\n' || c == '\r';
    match k {
        CharClass::InlineSpace => c == ' ' || c == '\t',
        CharClass::Space => is_space(c),
        CharClass::IdentChar => !(blank || c == '{' || c == '}' || c == '[' || c == ']' || c == '"'
            || c == '|' || c == ':' || c == ';' || c == ','),
        CharClass::TypeChar => !(blank || c == '{' || c == '}' || c == '"' || c == '|' || c == ':'
            || c == ';' || c == '.'),
        CharClass::QuotedChar => !(c == '"' || c == '\n' || c == '\r'),
        CharClass::NotNewline => c != '\n',
        CharClass::NotBlank => !blank,
        CharClass::WordChar => ('a' <= c && c <= 'z') || ('A' <= c && c <= 'Z') || ('0' <= c && c
            <= '9') || c == '_',
        CharClass::NameChar => alnum(c) || c == '_',
        CharClass::NotQuote => c != '"',
    }
}

/// Whether `c` belongs to the class `k`.
pub fn class_holds(k: CharClass, c: char) -> (r: bool)
    ensures
        r == in_class(k, c),
{
    let blank = c == ' ' || c == '\t' || c == '\n' || c == '\r';
    match k {
        CharClass::InlineSpace => c == ' ' || c == '\t',
        CharClass::Space => is_whitespace(c),
        CharClass::IdentChar => !(blank || c == '{' || c == '}' || c == '[' || c == ']' || c == '"'
            || c == '|' || c == ':' || c == ';' || c == ','),
        CharClass::TypeChar => !(blank || c == '{' || c == '}' || c == '"' || c == '|' || c == ':'
            || c == ';' || c == '.'),
        CharClass::QuotedChar => !(c == '"' || c == '\n' || c == '\r'),
        CharClass::NotNewline => c != '\n',
        CharClass::NotBlank => !blank,
        CharClass::WordChar => ('a' <= c && c <= 'z') || ('A' <= c && c <= 'Z') || ('0' <= c && c
            <= '9') || c == '_',
        CharClass::NameChar => is_alphanumeric(c) || c == '_',
        CharClass::NotQuote => c != '"',
    }
}

/// End of the longest run of characters of class `k` starting at `i`.
pub open spec fn run_end(s: Seq<char>, i: int, k: CharClass) -> int
    decreases s.len() - i,
{
    if 0 <= i < s.len() && in_class(k, s[i]) {
        run_end(s, i + 1, k)
    } else {
        i
    }
}

pub proof fn lemma_run_end(s: Seq<char>, i: int, k: CharClass)
    requires
        0 <= i <= s.len(),
    ensures
        i <= run_end(s, i, k) <= s.len(),
        forall|j: int| i <= j < run_end(s, i, k) ==> in_class(k, #[trigger] s[j]),
        run_end(s, i, k) < s.len() ==> !in_class(k, s[run_end(s, i, k)]),
    decreases s.len() - i,
{
    if i < s.len() && in_class(k, s[i]) {
        lemma_run_end(s, i + 1, k);
    }
}

/// End of the run of characters of class `k` starting at `i`.
pub fn scan(s: &Vec<char>, i: usize, k: CharClass) -> (r: usize)
    requires
        i <= s.len(),
    ensures
        r == run_end(s@, i as int, k),
        i <= r <= s.len(),
{
    let mut j = i;
    while j < s.len() && class_holds(k, s[j])
        invariant
            i <= j <= s.len(),
            run_end(s@, i as int, k) == run_end(s@, j as int, k),
        decreases s.len() - j,
    {
        j += 1;
    }
    j
}

/// Whether keyword `kw` stands at `i`: the text matches and is not followed
/// by a letter, digit or underscore.
pub open spec fn keyword_at(s: Seq<char>, i: int, kw: Seq<char>) -> bool {
    &&& crate::text::occurs_at(s, kw, i)
    &&& !(i + kw.len() < s.len() && in_class(CharClass::WordChar, s[i + kw.len()]))
}

/// Whether keyword `kw` stands at `i`.
pub fn keyword(s: &Vec<char>, i: usize, kw: &Vec<char>) -> (r: bool)
    requires
        i <= s.len(),
    ensures
        r == keyword_at(s@, i as int, kw@),
{
    if !crate::text::matches_at(s, i, kw) {
        return false;
    }
    let e = i + kw.len();
    !(e < s.len() && class_holds(CharClass::WordChar, s[e]))
}

/// Whether the character at `i` is `c`.
pub open spec fn char_at(s: Seq<char>, i: int, c: char) -> bool {
    0 <= i < s.len() && s[i] == c
}

/// Whether the character at `i` is `c`.
pub fn char_is(s: &Vec<char>, i: usize, c: char) -> (r: bool)
    ensures
        r == char_at(s@, i as int, c),
{
    i < s.len() && s[i] == c
}

} // verus!
