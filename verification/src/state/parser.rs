//! Parser for Mermaid `stateDiagram` source.
use super::database::{label_view, note_view, NoteSide, StateDatabase, StateNote};
use super::grammar::{
    actions_from, all_name, apply_action, apply_actions, colon, description, end_note,
    first_unknown, is_comment_line, is_header, kw_arrow, kw_as, kw_left_of, kw_note,
    kw_right_of, kw_star, kw_state, kw_state_sp, line_action, line_key, lines_of, mk_choice,
    mk_fork, mk_join, note_header, pct2, source_actions, sp_decl, sp_ref, sp_state_stmt,
    sp_statement_of, sp_trans, special_state, state_source, unknown_note, DbModel, SAction,
    SMode, SStateStmt,
};
use crate::model::{own, DiagramError, EdgeData, EdgeType, NodeData, NodeShape};
use crate::scan::{lemma_run_end, run_end, scan, CharClass};
use crate::text::{
    contains, ends_with, find_seq, first_occ, from_chars, lemma_first_occ, matches_at, occurs_at,
    slice, starts_with, to_chars, to_lowercase, trim, trimmed,
};
use vstd::prelude::*;

verus! {

/// A statement of one line.
#[derive(Debug, Clone, PartialEq)]
pub enum Statement {
    /// `state "label" as id`.
    StateDecl { id: String, label: String },
    /// `from --> to`, optionally with `: label`.
    Transition { from: String, to: String, label: Option<String> },
}

pub open spec fn stmt_view(s: Statement) -> SStateStmt {
    match s {
        Statement::StateDecl { id, label } => SStateStmt::Decl(id@, label@),
        Statement::Transition { from, to, label } => SStateStmt::Trans(from@, to@, label_view(label)),
    }
}

/// The contents of a database as the parser sees them.
pub open spec fn db_model(db: &StateDatabase) -> DbModel {
    (db.state_views(), db.transition_views(), db.note_views(), db.start_flag(), db.end_flag())
}

/// The message for a note on an unknown state.
pub open spec fn unknown_message(id: Seq<char>) -> Seq<char> {
    seq![
        'N', 'o', 't', 'e', ' ', 'r', 'e', 'f', 'e', 'r', 'e', 'n', 'c', 'e', 's', ' ', 'u', 'n', 'k', 'n', 'o',
        'w', 'n', ' ', 's', 't', 'a', 't', 'e', ':', ' '
    ] + id
}

fn lit(s: &str) -> (r: Vec<char>)
    ensures
        r@ == s@,
{
    to_chars(s)
}

/// A state reference at `i`.
fn p_ref(s: &Vec<char>, i: usize) -> (r: Option<(Vec<char>, usize)>)
    requires
        i <= s.len(),
    ensures
        match sp_ref(s@, i as int) {
            Some((v, e)) => r matches Some((w, f)) && w@ == v && f == e,
            None => r is None,
        },
        r matches Some((w, f)) ==> i < f <= s.len(),
{
    let star = lit("[*]");
    proof {
        reveal_strlit("[*]");
    }
    assert(star@ =~= kw_star());
    if matches_at(s, i, &star) {
        return Some((star, i + 3));
    }
    let e = scan(s, i, CharClass::NameChar);
    if i < e {
        Some((slice(s, i, e), e))
    } else {
        None
    }
}

fn p_decl(s: &Vec<char>) -> (r: Option<Statement>)
    ensures
        match sp_decl(s@) {
            Some(st) => r matches Some(x) && stmt_view(x) == st,
            None => r is None,
        },
{
    let kw = lit("state");
    let kas = lit("as");
    proof {
        reveal_strlit("state");
        reveal_strlit("as");
    }
    assert(kw@ =~= kw_state());
    assert(kas@ =~= kw_as());
    if !matches_at(s, 0, &kw) {
        return None;
    }
    let i1 = scan(s, 5, CharClass::Space);
    if i1 == 5 || !(i1 < s.len() && s[i1] == '"') {
        return None;
    }
    let j = scan(s, i1 + 1, CharClass::NotQuote);
    if !(j < s.len()) {
        return None;
    }
    let k = scan(s, j + 1, CharClass::Space);
    if k == j + 1 || !matches_at(s, k, &kas) {
        return None;
    }
    let m = scan(s, k + 2, CharClass::Space);
    let e = scan(s, m, CharClass::NameChar);
    if m == k + 2 || e == m || e != s.len() {
        return None;
    }
    let id = from_chars(&slice(s, m, e));
    let label = from_chars(&slice(s, i1 + 1, j));
    Some(Statement::StateDecl { id, label })
}

fn p_trans(s: &Vec<char>) -> (r: Option<Statement>)
    ensures
        match sp_trans(s@) {
            Some(st) => r matches Some(x) && stmt_view(x) == st,
            None => r is None,
        },
{
    let arrow = lit("-->");
    proof {
        reveal_strlit("-->");
    }
    assert(arrow@ =~= kw_arrow());
    let i0 = scan(s, 0, CharClass::Space);
    let (from, i1) = match p_ref(s, i0) {
        Some(x) => x,
        None => return None,
    };
    let i2 = scan(s, i1, CharClass::Space);
    if !matches_at(s, i2, &arrow) {
        return None;
    }
    let i3 = scan(s, i2 + 3, CharClass::Space);
    let (to, i4) = match p_ref(s, i3) {
        Some(x) => x,
        None => return None,
    };
    let i5 = scan(s, i4, CharClass::Space);
    if i5 == s.len() {
        return Some(Statement::Transition { from: from_chars(&from), to: from_chars(&to), label: None });
    }
    if s[i5] == ':' && scan(s, i5 + 1, CharClass::NotNewline) == s.len() {
        let l = trimmed(&slice(s, i5 + 1, s.len()));
        let label = if l.len() == 0 {
            None
        } else {
            Some(from_chars(&l))
        };
        return Some(Statement::Transition { from: from_chars(&from), to: from_chars(&to), label });
    }
    None
}

/// Parser for state diagrams.
pub struct StateParser;

impl StateParser {
    pub fn new() -> (r: Self) {
        StateParser
    }

    /// Parse one statement: `state "label" as id`, or a transition
    /// `from --> to` with an optional `: label`.
    pub fn parse_statement(&self, input: &str) -> (r: Result<Statement, DiagramError>)
        ensures
            match sp_statement_of(input@) {
                Some(st) => r matches Ok(x) && stmt_view(x) == st,
                None => r is Err,
            },
    {
        let t = trimmed(&to_chars(input));
        let parsed = match p_decl(&t) {
            Some(d) => Some(d),
            None => p_trans(&t),
        };
        match parsed {
            Some(st) => Ok(st),
            None => Err(DiagramError::new(own("Parse error"))),
        }
    }
}


/// The lines of `s`, as `str::lines` splits them.
pub fn split_lines(s: &Vec<char>) -> (r: Vec<Vec<char>>)
    ensures
        r@.map_values(|l: Vec<char>| l@) == lines_of(s@),
{
    let nl = lit("\n");
    proof {
        reveal_strlit("\n");
    }
    assert(nl@ =~= seq!['\n']);
    let mut out: Vec<Vec<char>> = Vec::new();
    let mut rest = slice(s, 0, s.len());
    assert(rest@ =~= s@);
    while rest.len() > 0
        invariant
            nl@ == seq!['\n'],
            lines_of(s@) == out@.map_values(|l: Vec<char>| l@) + lines_of(rest@),
        decreases rest.len(),
    {
        let ghost before = out@.map_values(|l: Vec<char>| l@);
        proof {
            lemma_first_occ(rest@, seq!['\n'], 0);
        }
        match find_seq(&rest, &nl) {
            Some(i) => {
                let mut line = slice(&rest, 0, i);
                if line.len() > 0 && line[line.len() - 1] == '\r' {
                    let n = line.len() - 1;
                    line = slice(&line, 0, n);
                    assert(line@ =~= rest@.take(i as int).drop_last());
                } else {
                    assert(line@ =~= rest@.take(i as int));
                }
                let next = slice(&rest, i + 1, rest.len());
                assert(next@ =~= rest@.skip(i + 1));
                let ghost lv = line@;
                out.push(line);
                assert(out@.map_values(|l: Vec<char>| l@) =~= before.push(lv));
                assert(lines_of(rest@) == seq![lv] + lines_of(next@));
                assert(before + (seq![lv] + lines_of(next@)) =~= before.push(lv) + lines_of(next@));
                rest = next;
            },
            None => {
                let ghost lv = rest@;
                let last = slice(&rest, 0, rest.len());
                assert(last@ =~= lv);
                out.push(last);
                assert(out@.map_values(|l: Vec<char>| l@) =~= before.push(lv));
                assert(lines_of(lv) == seq![lv]);
                rest = Vec::new();
                assert(lines_of(rest@) =~= Seq::<Seq<char>>::empty());
                assert(before + seq![lv] =~= before.push(lv) + lines_of(rest@));
            },
        }
    }
    assert(lines_of(rest@) =~= Seq::<Seq<char>>::empty());
    assert(out@.map_values(|l: Vec<char>| l@) + Seq::<Seq<char>>::empty() =~= out@.map_values(|l: Vec<char>| l@));
    out
}

/// A line without what follows `%%`, trimmed.
fn key_of(line: &Vec<char>) -> (r: Vec<char>)
    ensures
        r@ == line_key(line@),
{
    let pc = lit("%%");
    proof {
        reveal_strlit("%%");
    }
    assert(pc@ =~= pct2());
    proof {
        lemma_first_occ(line@, pct2(), 0);
    }
    assert(first_occ(line@, pc@, 0) == first_occ(line@, pct2(), 0));
    match find_seq(line, &pc) {
        Some(i) => {
            let head = slice(line, 0, i);
            assert(head@ =~= line@.take(i as int));
            trimmed(&head)
        },
        None => trimmed(line),
    }
}

fn header_line(t: &Vec<char>) -> (r: bool)
    ensures
        r == is_header(t@),
{
    let lower = to_lowercase(&trimmed(t));
    let key = lit("statediagram");
    proof {
        reveal_strlit("statediagram");
    }
    assert(key@ =~= seq!['s', 't', 'a', 't', 'e', 'd', 'i', 'a', 'g', 'r', 'a', 'm']);
    starts_with(&lower, &key)
}

fn comment_line(t: &Vec<char>) -> (r: bool)
    ensures
        r == is_comment_line(t@),
{
    let pc = lit("%%");
    proof {
        reveal_strlit("%%");
    }
    assert(pc@ =~= pct2());
    starts_with(&trimmed(t), &pc)
}

fn p_note_header(t: &Vec<char>) -> (r: Option<(NoteSide, Vec<char>, Option<Vec<char>>)>)
    ensures
        match note_header(t@) {
            Some((side, id, text)) => r matches Some((s2, i2, t2)) && s2 == side && i2@ == id && (match text {
                Some(x) => t2 matches Some(y) && y@ == x,
                None => t2 is None,
            }),
            None => r is None,
        },
{
    let kn = lit("note ");
    let kl = lit("left of ");
    let kr = lit("right of ");
    let kc = lit(":");
    proof {
        reveal_strlit("note ");
        reveal_strlit("left of ");
        reveal_strlit("right of ");
        reveal_strlit(":");
    }
    assert(kn@ =~= kw_note());
    assert(kl@ =~= kw_left_of());
    assert(kr@ =~= kw_right_of());
    assert(kc@ =~= colon());
    if !starts_with(t, &kn) {
        return None;
    }
    let rest = slice(t, 5, t.len());
    assert(rest@ =~= t@.skip(5));
    let (side, r) = if starts_with(&rest, &kl) {
        let r = slice(&rest, 8, rest.len());
        assert(r@ =~= rest@.skip(8));
        (NoteSide::Left, r)
    } else if starts_with(&rest, &kr) {
        let r = slice(&rest, 9, rest.len());
        assert(r@ =~= rest@.skip(9));
        (NoteSide::Right, r)
    } else {
        return None;
    };
    proof {
        lemma_first_occ(r@, colon(), 0);
    }
    match find_seq(&r, &kc) {
        Some(i) => {
            let id = slice(&r, 0, i);
            let text = slice(&r, i + 1, r.len());
            assert(id@ =~= r@.take(i as int));
            assert(text@ =~= r@.skip(i + 1));
            Some((side, trimmed(&id), Some(trimmed(&text))))
        },
        None => Some((side, trimmed(&r), None)),
    }
}

fn p_special(rest: &Vec<char>) -> (r: Option<Vec<char>>)
    ensures
        match special_state(rest@) {
            Some(id) => r matches Some(v) && v@ == id,
            None => r is None,
        },
{
    let c = lit("<<choice>>");
    let f = lit("<<fork>>");
    let j = lit("<<join>>");
    proof {
        reveal_strlit("<<choice>>");
        reveal_strlit("<<fork>>");
        reveal_strlit("<<join>>");
    }
    assert(c@ =~= mk_choice());
    assert(f@ =~= mk_fork());
    assert(j@ =~= mk_join());
    let n = rest.len();
    if ends_with(rest, &c) {
        let head = slice(rest, 0, n - 10);
        assert(head@ =~= rest@.take(n - 10));
        Some(trimmed(&head))
    } else if ends_with(rest, &f) {
        let head = slice(rest, 0, n - 8);
        assert(head@ =~= rest@.take(n - 8));
        Some(trimmed(&head))
    } else if ends_with(rest, &j) {
        let head = slice(rest, 0, n - 8);
        assert(head@ =~= rest@.take(n - 8));
        Some(trimmed(&head))
    } else {
        None
    }
}

fn p_all_name(rest: &Vec<char>) -> (r: bool)
    ensures
        r == all_name(rest@),
{
    let e = scan(rest, 0, CharClass::NameChar);
    proof {
        lemma_run_end(rest@, 0, CharClass::NameChar);
    }
    rest.len() > 0 && e == rest.len()
}

fn p_description(t: &Vec<char>) -> (r: Option<(Vec<char>, Vec<char>)>)
    ensures
        match description(t@) {
            Some((id, label)) => r matches Some((a, b)) && a@ == id && b@ == label,
            None => r is None,
        },
{
    let arrow = lit("-->");
    let kn = lit("note ");
    let kc = lit(":");
    proof {
        reveal_strlit("-->");
        reveal_strlit("note ");
        reveal_strlit(":");
    }
    assert(arrow@ =~= kw_arrow());
    assert(kn@ =~= kw_note());
    assert(kc@ =~= colon());
    if contains(t, &arrow) || starts_with(t, &kn) {
        return None;
    }
    proof {
        lemma_first_occ(t@, colon(), 0);
    }
    assert(first_occ(t@, kc@, 0) == first_occ(t@, colon(), 0));
    match find_seq(t, &kc) {
        Some(i) => {
            assert(first_occ(t@, colon(), 0) == Some(i as int));
            assert(colon().len() == 1);
            assert(i + 1 <= t.len());
            let a = slice(t, 0, i);
            let b = slice(t, i + 1, t.len());
            assert(a@ =~= t@.take(i as int));
            assert(b@ =~= t@.skip(i + 1));
            let id = trimmed(&a);
            let label = trimmed(&b);
            if id.len() > 0 && label.len() > 0 {
                Some((id, label))
            } else {
                None
            }
        },
        None => None,
    }
}

/// The first note whose state is unknown.
fn find_unknown_note(db: &StateDatabase) -> (r: Option<String>)
    ensures
        match unknown_note(db_model(db)) {
            Some(id) => r matches Some(s) && s@ == id,
            None => r is None,
        },
{
    let notes = db.notes();
    let ghost ns = db.note_views();
    let ghost st = db.state_views();
    let mut k: usize = 0;
    while k < notes.len()
        invariant
            notes@.map_values(|n: StateNote| note_view(n)) == ns,
            ns == db.note_views(),
            st == db.state_views(),
            k <= notes.len(),
            first_unknown(st, ns.take(k as int)) is None,
        decreases notes.len() - k,
    {
        assert(ns.take(k + 1).drop_last() == ns.take(k as int));
        assert(ns.take(k + 1).last() == ns[k as int]);
        assert(ns[k as int].0 == notes@[k as int].state_id@);
        if db.state_index(notes[k].state_id.as_str()).is_none() {
            proof {
                lemma_first_unknown_prefix(st, ns, k + 1);
            }
            return Some(notes[k].state_id.clone());
        }
        k += 1;
    }
    assert(ns.take(notes.len() as int) == ns);
    None
}

/// Once a prefix of the notes has an unknown state, the whole list has the
/// same first unknown state.
proof fn lemma_first_unknown_prefix(
    st: Seq<(Seq<char>, Seq<char>, NodeShape)>,
    ns: Seq<(Seq<char>, NoteSide, Seq<Seq<char>>)>,
    j: int,
)
    requires
        0 <= j <= ns.len(),
        first_unknown(st, ns.take(j)) is Some,
    ensures
        first_unknown(st, ns) == first_unknown(st, ns.take(j)),
    decreases ns.len() - j,
{
    if j < ns.len() {
        assert(ns.take(j + 1).drop_last() == ns.take(j));
        lemma_first_unknown_prefix(st, ns, j + 1);
    } else {
        assert(ns.take(j) == ns);
    }
}

impl StateParser {
    /// The name of the diagram kind this parser reads.
    pub fn name(&self) -> (r: &'static str)
        ensures
            r@ == seq!['s', 't', 'a', 't', 'e'],
    {
        proof {
            reveal_strlit("state");
        }
        "state"
    }

    /// The parser's version.
    pub fn version(&self) -> (r: &'static str)
        ensures
            r@ == seq!['0', '.', '1', '.', '0'],
    {
        proof {
            reveal_strlit("0.1.0");
        }
        "0.1.0"
    }

    /// Whether the source looks like a state diagram: it starts with
    /// `stateDiagram` (in any case), or mentions `[*]`.
    pub fn can_parse(&self, input: &str) -> (r: bool)
        ensures
            r == state_source(input@),
    {
        let v = to_chars(input);
        let lower = to_lowercase(&trimmed(&v));
        let key = lit("statediagram");
        let star = lit("[*]");
        proof {
            reveal_strlit("statediagram");
            reveal_strlit("[*]");
        }
        assert(key@ =~= seq!['s', 't', 'a', 't', 'e', 'd', 'i', 'a', 'g', 'r', 'a', 'm']);
        assert(star@ =~= kw_star());
        starts_with(&lower, &key) || contains(&v, &star)
    }

    /// Read a whole source into the database, line by line: comments after
    /// `%%`, blank lines and the header are skipped; notes (inline or as
    /// blocks up to `end note`), special and plain state declarations, state
    /// descriptions and transitions are added; other lines are ignored.
    /// Afterwards a note on a state that does not exist is an error.
    pub fn parse(&self, input: &str, database: &mut StateDatabase) -> (r: Result<(), DiagramError>)
        requires
            old(database).wf(),
        ensures
            final(database).wf(),
            db_model(final(database)) == apply_actions(db_model(old(database)), source_actions(input@)),
            match unknown_note(db_model(final(database))) {
                Some(id) => r matches Err(e) && e.message@ == unknown_message(id),
                None => r is Ok,
            },
    {
        let lines = split_lines(&to_chars(input));
        let ghost ls = lines@.map_values(|l: Vec<char>| l@);
        let ghost d0 = db_model(database);
        let ghost mut done: Seq<SAction> = Seq::empty();
        assert(done + actions_from(ls, 0, SMode::Normal) =~= source_actions(input@));
        let mut index: usize = 0;
        while index < lines.len()
            invariant
                database.wf(),
                ls == lines@.map_values(|l: Vec<char>| l@),
                index <= lines.len(),
                db_model(database) == apply_actions(d0, done),
                source_actions(input@) == done + actions_from(ls, index as int, SMode::Normal),
            decreases lines.len() - index,
        {
            let ghost i0 = index as int;
            let ghost before = done;
            assert(ls[i0] == lines@[i0]@);
            let t = key_of(&lines[index]);
            index += 1;
            let ghost la = line_action(t@);
            assert(actions_from(ls, i0, SMode::Normal) == match la.0 {
                Some(act) => seq![act] + actions_from(ls, i0 + 1, la.1),
                None => actions_from(ls, i0 + 1, la.1),
            });
            let opened = apply_line(database, &t);
            proof {
                if la.0 is Some {
                    done = done.push(la.0->0);
                    assert(done.drop_last() == before);
                }
            }
            match opened {
                Some((side, id)) => {
                    let (text, next) = read_note_block(&lines, index, Ghost(ls), Ghost(id@), side);
                    let ghost tv = text@.map_values(|l: String| l@);
                    let ghost mid = done;
                    let note = StateNote { state_id: from_chars(&id), side, text };
                    database.add_note(note);
                    proof {
                        done = done.push(SAction::Note(id@, side, tv));
                        assert(done.drop_last() == mid);
                    }
                    index = next;
                },
                None => {},
            }
            assert(source_actions(input@) =~= done + actions_from(ls, index as int, SMode::Normal));
        }
        assert(actions_from(ls, index as int, SMode::Normal) =~= Seq::<SAction>::empty());
        assert(done =~= source_actions(input@));
        match find_unknown_note(database) {
            Some(id) => {
                let msg = crate::text::concat(&lit("Note references unknown state: "), &to_chars(id.as_str()));
                proof {
                    reveal_strlit("Note references unknown state: ");
                }
                assert(msg@ =~= unknown_message(id@));
                Err(DiagramError::new(from_chars(&msg)))
            },
            None => Ok(()),
        }
    }
}

/// The lines of a note block from line `index` up to `end note` (or the end
/// of the source), trimmed, blank ones left out; and the line after it.
fn read_note_block(
    lines: &Vec<Vec<char>>,
    index: usize,
    Ghost(ls): Ghost<Seq<Seq<char>>>,
    Ghost(id): Ghost<Seq<char>>,
    side: NoteSide,
) -> (r: (Vec<String>, usize))
    requires
        ls == lines@.map_values(|l: Vec<char>| l@),
        index <= lines.len(),
    ensures
        index <= r.1 <= lines.len(),
        actions_from(ls, index as int, SMode::InNote(id, side, Seq::empty())) == seq![
            SAction::Note(id, side, r.0@.map_values(|l: String| l@)),
        ] + actions_from(ls, r.1 as int, SMode::Normal),
{
    let en = lit("end note");
    proof {
        reveal_strlit("end note");
    }
    assert(en@ =~= end_note());
    let mut text: Vec<String> = Vec::new();
    let mut open = true;
    let mut i = index;
    let ghost start = actions_from(ls, index as int, SMode::InNote(id, side, Seq::empty()));
    assert(text@.map_values(|l: String| l@) =~= Seq::<Seq<char>>::empty());
    while open && i < lines.len()
        invariant
            en@ == end_note(),
            ls == lines@.map_values(|l: Vec<char>| l@),
            index <= i <= lines.len(),
            open ==> start == actions_from(ls, i as int, SMode::InNote(id, side, text@.map_values(|l: String| l@))),
            !open ==> start == seq![SAction::Note(id, side, text@.map_values(|l: String| l@))] + actions_from(
                ls,
                i as int,
                SMode::Normal,
            ),
        decreases lines.len() - i,
    {
        let ghost tv = text@.map_values(|l: String| l@);
        assert(ls[i as int] == lines@[i as int]@);
        let note_line = trimmed(&lines[i]);
        i += 1;
        if crate::text::same_chars(&note_line, &en) {
            open = false;
        } else if note_line.len() > 0 {
            text.push(from_chars(&note_line));
            assert(text@.map_values(|l: String| l@) =~= tv.push(note_line@));
        }
    }
    if open {
        assert(actions_from(ls, i as int, SMode::Normal) =~= Seq::<SAction>::empty());
        assert(start =~= seq![SAction::Note(id, side, text@.map_values(|l: String| l@))] + actions_from(
            ls,
            i as int,
            SMode::Normal,
        ));
    }
    (text, i)
}

/// Performs what one line outside a note block says, and tells whether it
/// opens a note block (and for which state and side).
#[verifier::rlimit(30)]
fn apply_line(database: &mut StateDatabase, t: &Vec<char>) -> (r: Option<(NoteSide, Vec<char>)>)
    requires
        old(database).wf(),
    ensures
        final(database).wf(),
        db_model(final(database)) == (match line_action(t@).0 {
            Some(act) => apply_action(db_model(old(database)), act),
            None => db_model(old(database)),
        }),
        match line_action(t@).1 {
            SMode::InNote(id, side, text) => r matches Some((s2, i2)) && s2 == side && i2@ == id && text
                == Seq::<Seq<char>>::empty(),
            SMode::Normal => r is None,
        },
{
    if t.len() == 0 || comment_line(t) || header_line(t) {
        return None;
    }
    match p_note_header(t) {
        Some((side, id, Some(text))) => {
            let mut lines_of_note: Vec<String> = Vec::new();
            lines_of_note.push(from_chars(&text));
            let note = StateNote { state_id: from_chars(&id), side, text: lines_of_note };
            assert(note.text@.map_values(|l: String| l@) =~= seq![text@]);
            database.add_note(note);
            return None;
        },
        Some((side, id, None)) => {
            return Some((side, id));
        },
        None => {},
    }
    let ks = lit("state ");
    proof {
        reveal_strlit("state ");
    }
    assert(ks@ =~= kw_state_sp());
    if starts_with(t, &ks) {
        let rest = slice(t, 6, t.len());
        assert(rest@ =~= t@.skip(6));
        match p_special(&rest) {
            Some(id) => {
                let ids = from_chars(&id);
                let _ = database.add_state(NodeData::with_shape(ids.as_str(), ids.as_str(), NodeShape::Diamond));
                return None;
            },
            None => {},
        }
        if p_all_name(&rest) {
            let ids = from_chars(&rest);
            let _ = database.add_state(NodeData::new(ids.as_str(), ids.as_str()));
            return None;
        }
    }
    match p_description(t) {
        Some((id, label)) => {
            let ids = from_chars(&id);
            let ls2 = from_chars(&label);
            let _ = database.add_state(NodeData::with_shape(ids.as_str(), ls2.as_str(), NodeShape::Rectangle));
            return None;
        },
        None => {},
    }
    let ts = from_chars(t);
    let parser = StateParser::new();
    match parser.parse_statement(ts.as_str()) {
        Ok(Statement::StateDecl { id, label }) => {
            let _ = database.add_state(NodeData::with_shape(id.as_str(), label.as_str(), NodeShape::Rectangle));
        },
        Ok(Statement::Transition { from, to, label }) => {
            let ghost lv = label_view(label);
            let edge = match label {
                Some(l) => EdgeData::with_label(from.as_str(), to.as_str(), EdgeType::Arrow, l.as_str()),
                None => EdgeData::new(from.as_str(), to.as_str()),
            };
            assert(label_view(edge.label) == lv);
            let _ = database.add_transition(edge);
        },
        Err(_) => {},
    }
    None
}

} // verus!
