//! Reading of pie chart source: which lines are the header, titles and
//! slices, and the text of each. The values stay text here; turning them
//! into numbers is left to the caller.
use super::detector::pie_keyword;
use crate::state::grammar::lines_of;
use crate::text::{has_prefix, lowercase, trim};
use vstd::prelude::*;

verus! {

/// What a line of pie source says.
#[derive(Clone, Debug, PartialEq)]
pub enum PieLine {
    /// The `pie` header, with whether it asks to show values, and the text
    /// after `title` when there is one (possibly empty).
    Header { show_data: bool, title: Option<String> },
    /// A `title` line.
    Title(String),
    /// A `"label" : value` line, with the value as text.
    Slice { label: String, value: String },
}

pub enum SPieLine {
    Header(bool, Option<Seq<char>>),
    Title(Seq<char>),
    Slice(Seq<char>, Seq<char>),
}

pub open spec fn opt_view(o: Option<String>) -> Option<Seq<char>> {
    match o {
        Some(s) => Some(s@),
        None => None,
    }
}

pub open spec fn pie_line_view(p: PieLine) -> SPieLine {
    match p {
        PieLine::Header { show_data, title } => SPieLine::Header(show_data, opt_view(title)),
        PieLine::Title(t) => SPieLine::Title(t@),
        PieLine::Slice { label, value } => SPieLine::Slice(label@, value@),
    }
}

pub open spec fn kw_show() -> Seq<char> {
    seq!['s', 'h', 'o', 'w', 'D', 'a', 't', 'a']
}

pub open spec fn kw_title() -> Seq<char> {
    seq!['t', 'i', 't', 'l', 'e']
}

/// The options of a header line: `pie [showData] [title TEXT]`.
pub open spec fn header_of(line: Seq<char>) -> (bool, Option<Seq<char>>) {
    let t = trim(line);
    let rest = if t.len() >= 3 {
        trim(t.skip(3))
    } else {
        Seq::empty()
    };
    let show = has_prefix(rest, kw_show());
    let rest2 = if show {
        trim(rest.skip(8))
    } else {
        rest
    };
    (show, if has_prefix(rest2, kw_title()) { Some(trim(rest2.skip(5))) } else { None })
}

/// The title of a `title TEXT` line with non-empty text.
pub open spec fn title_of(line: Seq<char>) -> Option<Seq<char>> {
    let t = trim(line);
    if has_prefix(t, kw_title()) && trim(t.skip(5)).len() > 0 {
        Some(trim(t.skip(5)))
    } else {
        None
    }
}

/// Position of the last `c` in `s`.
pub open spec fn last_pos(s: Seq<char>, c: char) -> Option<int>
    decreases s.len(),
{
    if s.len() == 0 {
        None
    } else if s.last() == c {
        Some(s.len() - 1)
    } else {
        last_pos(s.drop_last(), c)
    }
}

/// Number of leading double quotes.
pub open spec fn lead_q(s: Seq<char>) -> nat
    decreases s.len(),
{
    if s.len() > 0 && s[0] == '"' {
        1 + lead_q(s.drop_first())
    } else {
        0
    }
}

/// Number of trailing double quotes.
pub open spec fn trail_q(s: Seq<char>) -> nat
    decreases s.len(),
{
    if s.len() > 0 && s.last() == '"' {
        1 + trail_q(s.drop_last())
    } else {
        0
    }
}

/// `s` without leading and trailing double quotes.
pub open spec fn strip_quotes(s: Seq<char>) -> Seq<char> {
    let a = s.skip(lead_q(s) as int);
    a.take(a.len() - trail_q(a))
}

/// The label and value text of a `label : value` line (split at the last
/// colon), both non-empty, the label without quotes.
pub open spec fn slice_of(line: Seq<char>) -> Option<(Seq<char>, Seq<char>)> {
    let t = trim(line);
    if t.len() == 0 || has_prefix(t, seq!['%', '%']) {
        None
    } else {
        match last_pos(t, ':') {
            None => None,
            Some(p) => {
                let label = trim(strip_quotes(trim(t.take(p))));
                let value = trim(t.skip(p + 1));
                if label.len() > 0 && value.len() > 0 {
                    Some((label, value))
                } else {
                    None
                }
            },
        }
    }
}

/// What one line says, if anything.
pub open spec fn line_of(line: Seq<char>) -> Option<SPieLine> {
    let t = trim(line);
    if t.len() == 0 || has_prefix(t, seq!['%', '%']) {
        None
    } else if pie_keyword(lowercase(t)) {
        let (show, title) = header_of(t);
        Some(SPieLine::Header(show, title))
    } else if title_of(t) is Some {
        Some(SPieLine::Title(title_of(t)->0))
    } else if slice_of(t) is Some {
        let (label, value) = slice_of(t)->0;
        Some(SPieLine::Slice(label, value))
    } else {
        None
    }
}

/// What the first `k` lines say, in order.
pub open spec fn lines_said(lines: Seq<Seq<char>>, k: int) -> Seq<SPieLine>
    decreases k,
{
    if k <= 0 {
        Seq::empty()
    } else {
        let prev = lines_said(lines, k - 1);
        match line_of(lines[k - 1]) {
            Some(p) => prev.push(p),
            None => prev,
        }
    }
}

/// What a whole source says.
pub open spec fn pie_source(input: Seq<char>) -> Seq<SPieLine> {
    let ls = lines_of(input);
    lines_said(ls, ls.len() as int)
}

proof fn lemma_last_pos(s: Seq<char>, c: char, i: int)
    requires
        0 <= i < s.len(),
        s[i] == c,
        forall|j: int| i < j < s.len() ==> s[j] != c,
    ensures
        last_pos(s, c) == Some(i),
    decreases s.len(),
{
    if s.last() != c {
        lemma_last_pos(s.drop_last(), c, i);
    }
}

proof fn lemma_last_pos_none(s: Seq<char>, c: char)
    requires
        forall|j: int| 0 <= j < s.len() ==> s[j] != c,
    ensures
        last_pos(s, c) is None,
    decreases s.len(),
{
    if s.len() > 0 {
        lemma_last_pos_none(s.drop_last(), c);
    }
}

fn lit(s: &str) -> (r: Vec<char>)
    ensures
        r@ == s@,
{
    crate::text::to_chars(s)
}

fn strip_quote_chars(s: &Vec<char>) -> (r: Vec<char>)
    ensures
        r@ == strip_quotes(s@),
{
    let mut a: usize = 0;
    assert(s@.skip(0) =~= s@);
    while a < s.len() && s[a] == '"'
        invariant
            a <= s.len(),
            lead_q(s@) == a + lead_q(s@.skip(a as int)),
        decreases s.len() - a,
    {
        assert(s@.skip(a as int).drop_first() =~= s@.skip(a + 1));
        a += 1;
    }
    let rest = crate::text::slice(s, a, s.len());
    assert(rest@ =~= s@.skip(a as int));
    assert(lead_q(s@) == a);
    let mut b = rest.len();
    assert(rest@.take(b as int) =~= rest@);
    while b > 0 && rest[b - 1] == '"'
        invariant
            b <= rest.len(),
            trail_q(rest@) == (rest.len() - b) + trail_q(rest@.take(b as int)),
        decreases b,
    {
        assert(rest@.take(b as int).drop_last() =~= rest@.take(b - 1));
        b -= 1;
    }
    let r = crate::text::slice(&rest, 0, b);
    assert(r@ =~= rest@.take(b as int));
    r
}

/// Parser for pie charts.
pub struct PieParser;

impl PieParser {
    pub fn new() -> (r: Self) {
        PieParser
    }

    /// The name of the diagram kind this parser reads.
    pub fn name(&self) -> (r: &'static str)
        ensures
            r@ == seq!['p', 'i', 'e'],
    {
        proof {
            reveal_strlit("pie");
        }
        "pie"
    }

    /// The parser's version.
    pub fn version(&self) -> (r: &'static str)
        ensures
            r@ == seq!['0', '.', '1', '.', '0'],
    {
        proof {
            reveal_strlit("0.1.0");
        }
        "0.1.0"
    }

    /// Whether the source, without leading whitespace and lower-cased, is
    /// `pie` or starts with `pie` and a space or a line break.
    pub fn can_parse(&self, input: &str) -> (r: bool)
        ensures
            r == ({
                let l = lowercase(crate::text::trim_start(input@));
                l == seq!['p', 'i', 'e'] || has_prefix(l, seq!['p', 'i', 'e', ' ']) || has_prefix(
                    l,
                    seq!['p', 'i', 'e', '\n'],
                )
            }),
    {
        let lower = crate::text::to_lowercase(&crate::text::trimmed_start(&crate::text::to_chars(input)));
        let pie = crate::text::to_chars("pie");
        let pie_sp = crate::text::to_chars("pie ");
        let pie_nl = crate::text::to_chars("pie\n");
        proof {
            reveal_strlit("pie");
            reveal_strlit("pie ");
            reveal_strlit("pie\n");
        }
        assert(pie@ =~= seq!['p', 'i', 'e']);
        assert(pie_sp@ =~= seq!['p', 'i', 'e', ' ']);
        assert(pie_nl@ =~= seq!['p', 'i', 'e', '\n']);
        crate::text::same_chars(&lower, &pie) || crate::text::starts_with(&lower, &pie_sp)
            || crate::text::starts_with(&lower, &pie_nl)
    }

    /// The options of a header line.
    pub fn parse_header(&self, line: &str) -> (r: (bool, Option<String>))
        ensures
            r.0 == header_of(line@).0,
            opt_view(r.1) == header_of(line@).1,
    {
        let t = crate::text::chars_trimmed(line);
        let after = if t.len() >= 3 {
            crate::text::slice(&t, 3, t.len())
        } else {
            Vec::new()
        };
        assert(t.len() >= 3 ==> after@ =~= t@.skip(3));
        let rest = crate::text::trimmed(&after);
        assert(t.len() < 3 ==> rest@ =~= Seq::<char>::empty());
        let show = lit("showData");
        let title = lit("title");
        proof {
            reveal_strlit("showData");
            reveal_strlit("title");
        }
        assert(show@ =~= kw_show());
        assert(title@ =~= kw_title());
        let has_show = crate::text::starts_with(&rest, &show);
        let rest2 = if has_show {
            let s8 = crate::text::slice(&rest, 8, rest.len());
            assert(s8@ =~= rest@.skip(8));
            crate::text::trimmed(&s8)
        } else {
            rest
        };
        let t2 = if crate::text::starts_with(&rest2, &title) {
            let s5 = crate::text::slice(&rest2, 5, rest2.len());
            assert(s5@ =~= rest2@.skip(5));
            Some(crate::text::from_chars(&crate::text::trimmed(&s5)))
        } else {
            None
        };
        (has_show, t2)
    }

    /// The title of a `title TEXT` line, when its text is not empty.
    pub fn parse_title_line(&self, line: &str) -> (r: Option<String>)
        ensures
            opt_view(r) == title_of(line@),
    {
        let t = crate::text::chars_trimmed(line);
        let title = lit("title");
        proof {
            reveal_strlit("title");
        }
        assert(title@ =~= kw_title());
        if !crate::text::starts_with(&t, &title) {
            return None;
        }
        let s5 = crate::text::slice(&t, 5, t.len());
        assert(s5@ =~= t@.skip(5));
        let x = crate::text::trimmed(&s5);
        if x.len() > 0 {
            Some(crate::text::from_chars(&x))
        } else {
            None
        }
    }

    /// The label and value text of a slice line.
    pub fn parse_slice_line(&self, line: &str) -> (r: Option<(String, String)>)
        ensures
            match slice_of(line@) {
                Some((l, v)) => r matches Some((a, b)) && a@ == l && b@ == v,
                None => r is None,
            },
    {
        let t = crate::text::chars_trimmed(line);
        let pc = lit("%%");
        proof {
            reveal_strlit("%%");
        }
        assert(pc@ =~= seq!['%', '%']);
        if t.len() == 0 || crate::text::starts_with(&t, &pc) {
            return None;
        }
        match crate::text::rfind_char(&t, ':') {
            None => {
                proof {
                    lemma_last_pos_none(t@, ':');
                }
                None
            },
            Some(p) => {
                proof {
                    lemma_last_pos(t@, ':', p as int);
                }
                let head = crate::text::slice(&t, 0, p);
                assert(head@ =~= t@.take(p as int));
                let tail = crate::text::slice(&t, p + 1, t.len());
                assert(tail@ =~= t@.skip(p + 1));
                let label = crate::text::trimmed(&strip_quote_chars(&crate::text::trimmed(&head)));
                let value = crate::text::trimmed(&tail);
                if label.len() > 0 && value.len() > 0 {
                    Some((crate::text::from_chars(&label), crate::text::from_chars(&value)))
                } else {
                    None
                }
            },
        }
    }

    /// What one line says, if anything.
    fn parse_line(&self, line: &Vec<char>) -> (r: Option<PieLine>)
        ensures
            match line_of(line@) {
                Some(p) => r matches Some(x) && pie_line_view(x) == p,
                None => r is None,
            },
    {
        let t = crate::text::trimmed(line);
        let pc = lit("%%");
        let pie = lit("pie");
        let pie_sp = lit("pie ");
        proof {
            reveal_strlit("%%");
            reveal_strlit("pie");
            reveal_strlit("pie ");
        }
        assert(pc@ =~= seq!['%', '%']);
        assert(pie@ =~= seq!['p', 'i', 'e']);
        assert(pie_sp@ =~= seq!['p', 'i', 'e', ' ']);
        if t.len() == 0 || crate::text::starts_with(&t, &pc) {
            return None;
        }
        let ts = crate::text::from_chars(&t);
        let lower = crate::text::to_lowercase(&t);
        if crate::text::same_chars(&lower, &pie) || crate::text::starts_with(&lower, &pie_sp) {
            let (show_data, title) = self.parse_header(ts.as_str());
            proof {
                crate::text::lemma_trim_idem(t@);
            }
            return Some(PieLine::Header { show_data, title });
        }
        match self.parse_title_line(ts.as_str()) {
            Some(x) => {
                proof {
                    crate::text::lemma_trim_idem(t@);
                }
                return Some(PieLine::Title(x));
            },
            None => {},
        }
        proof {
            crate::text::lemma_trim_idem(t@);
        }
        match self.parse_slice_line(ts.as_str()) {
            Some((label, value)) => Some(PieLine::Slice { label, value }),
            None => None,
        }
    }

    /// What each line of the source says, in order: the header, titles and
    /// slices; blank lines, `%%` comments and anything else are left out.
    pub fn parse_lines(&self, input: &str) -> (r: Vec<PieLine>)
        ensures
            r@.map_values(|p: PieLine| pie_line_view(p)) == pie_source(input@),
    {
        let lines = crate::state::parser::split_lines(&crate::text::to_chars(input));
        let ghost ls = lines@.map_values(|l: Vec<char>| l@);
        let mut out: Vec<PieLine> = Vec::new();
        let mut k: usize = 0;
        while k < lines.len()
            invariant
                ls == lines@.map_values(|l: Vec<char>| l@),
                k <= lines.len(),
                out@.map_values(|p: PieLine| pie_line_view(p)) == lines_said(ls, k as int),
            decreases lines.len() - k,
        {
            assert(ls[k as int] == lines@[k as int]@);
            let ghost before = out@;
            match self.parse_line(&lines[k]) {
                Some(p) => {
                    out.push(p);
                    assert(out@.map_values(|p: PieLine| pie_line_view(p)) =~= before.map_values(|p: PieLine| pie_line_view(p)).push(pie_line_view(p)));
                },
                None => {},
            }
            k += 1;
        }
        out
    }
}

/// What the lines of a pie chart settle before any value is read as a
/// number: whether values are shown, the title, and each slice's label and
/// value text, in order.
#[derive(Clone, Debug, PartialEq)]
pub struct PieOutline {
    pub show_data: bool,
    pub title: Option<String>,
    pub slices: Vec<(String, String)>,
}

/// A title as the chart keeps it: none when empty.
pub open spec fn kept_title(t: Seq<char>) -> Option<Seq<char>> {
    if t.len() == 0 {
        None
    } else {
        Some(t)
    }
}

/// The state after the first `k` lines: whether a header was seen, whether
/// values are shown, the title (the last one given wins), and the slices.
pub open spec fn outline_upto(ls: Seq<SPieLine>, k: int) -> (bool, bool, Option<Seq<char>>, Seq<(Seq<char>, Seq<char>)>)
    decreases k,
{
    if k <= 0 {
        (false, false, None, Seq::empty())
    } else {
        let (h, sd, t, sl) = outline_upto(ls, k - 1);
        match ls[k - 1] {
            SPieLine::Header(show, title) => (
                true,
                sd || show,
                match title {
                    Some(x) => kept_title(x),
                    None => t,
                },
                sl,
            ),
            SPieLine::Title(x) => (h, sd, kept_title(x), sl),
            SPieLine::Slice(l, v) => (h, sd, t, sl.push((l, v))),
        }
    }
}

/// The outline of a whole sequence of lines.
pub open spec fn outline_of(ls: Seq<SPieLine>) -> (bool, bool, Option<Seq<char>>, Seq<(Seq<char>, Seq<char>)>) {
    outline_upto(ls, ls.len() as int)
}

pub open spec fn no_header_message() -> Seq<char> {
    seq![
        'P', 'a', 'r', 's', 'e', ' ', 'e', 'r', 'r', 'o', 'r', ':', ' ', 'e', 'x', 'p', 'e', 'c', 't', 'e', 'd', ' ',
        'p', 'i', 'e', ' ', 'd', 'i', 'a', 'g', 'r', 'a', 'm', ' ', 'h', 'e', 'a', 'd', 'e', 'r',
    ]
}

pub open spec fn no_slices_message() -> Seq<char> {
    seq![
        'P', 'a', 'r', 's', 'e', ' ', 'e', 'r', 'r', 'o', 'r', ':', ' ', 'p', 'i', 'e', ' ', 'd', 'i', 'a', 'g',
        'r', 'a', 'm', ' ', 'c', 'o', 'n', 't', 'a', 'i', 'n', 's', ' ', 'n', 'o', ' ', 's', 'l', 'i', 'c', 'e',
        's',
    ]
}

fn keep_title(t: &String) -> (r: Option<String>)
    ensures
        opt_view(r) == kept_title(t@),
{
    if crate::text::to_chars(t.as_str()).len() == 0 {
        None
    } else {
        Some(t.clone())
    }
}

impl PieParser {
    /// The outline of a pie chart from its lines: an error when no header
    /// line was read, else an error when there is no slice, else the
    /// options, the title and the slices in order.
    pub fn outline(&self, lines: &Vec<PieLine>) -> (r: Result<PieOutline, crate::model::DiagramError>)
        ensures
            ({
                let (h, sd, t, sl) = outline_of(lines@.map_values(|p: PieLine| pie_line_view(p)));
                &&& !h ==> (r matches Err(e) && e.message@ == no_header_message())
                &&& (h && sl.len() == 0) ==> (r matches Err(e) && e.message@ == no_slices_message())
                &&& (h && sl.len() > 0) ==> (r matches Ok(o) && o.show_data == sd && opt_view(o.title) == t
                    && o.slices@.map_values(|p: (String, String)| (p.0@, p.1@)) == sl)
            }),
    {
        let ghost ls = lines@.map_values(|p: PieLine| pie_line_view(p));
        let mut header = false;
        let mut show = false;
        let mut title: Option<String> = None;
        let mut slices: Vec<(String, String)> = Vec::new();
        let mut k: usize = 0;
        while k < lines.len()
            invariant
                k <= lines.len(),
                ls == lines@.map_values(|p: PieLine| pie_line_view(p)),
                outline_upto(ls, k as int) == (header, show, opt_view(title), slices@.map_values(
                    |p: (String, String)| (p.0@, p.1@),
                )),
            decreases lines.len() - k,
        {
            assert(ls[k as int] == pie_line_view(lines@[k as int]));
            let ghost before = slices@;
            match &lines[k] {
                PieLine::Header { show_data, title: t } => {
                    header = true;
                    if *show_data {
                        show = true;
                    }
                    match t {
                        Some(x) => {
                            title = keep_title(x);
                        },
                        None => {},
                    }
                },
                PieLine::Title(x) => {
                    title = keep_title(x);
                },
                PieLine::Slice { label, value } => {
                    slices.push((label.clone(), value.clone()));
                    assert(slices@.map_values(|p: (String, String)| (p.0@, p.1@)) =~= before.map_values(
                        |p: (String, String)| (p.0@, p.1@),
                    ).push((label@, value@)));
                },
            }
            k += 1;
        }
        assert(ls.len() == lines.len());
        if !header {
            proof {
                reveal_strlit("Parse error: expected pie diagram header");
            }
            let m = crate::text::from_chars(&crate::text::to_chars("Parse error: expected pie diagram header"));
            assert(m@ =~= no_header_message());
            return Err(crate::model::DiagramError::new(m));
        }
        if slices.len() == 0 {
            proof {
                reveal_strlit("Parse error: pie diagram contains no slices");
            }
            let m = crate::text::from_chars(&crate::text::to_chars("Parse error: pie diagram contains no slices"));
            assert(m@ =~= no_slices_message());
            return Err(crate::model::DiagramError::new(m));
        }
        Ok(PieOutline { show_data: show, title, slices })
    }
}

} // verus!
