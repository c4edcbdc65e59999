//! The grammar of `stateDiagram` source, as functions on characters: how
//! the source splits into lines, what each line says, and what the whole
//! source adds to a database.
use super::database::{
    endpoint, end_id, ensured, lemma_ensured, lemma_pos_kept_ensured, lemma_pos_kept_merged, merged, start_id, state_pos,
    NoteSide,
};
use crate::model::{EdgeType, NodeShape};
use crate::scan::{run_end, CharClass};
use crate::text::{
    alnum, contains_seq, first_occ, has_prefix, lemma_first_occ, has_suffix, lowercase, occurs_at, trim,
};
use vstd::prelude::*;

verus! {

/// The lines of `s` as `str::lines` gives them: split at `\n`, a `\r`
/// before the `\n` dropped, and no empty line after a final `\n`.
pub open spec fn lines_of(s: Seq<char>) -> Seq<Seq<char>>
    decreases s.len(),
{
    if s.len() == 0 {
        Seq::empty()
    } else {
        match first_occ(s, seq!['\n'], 0) {
            Some(i) => {
                proof {
                    lemma_first_occ(s, seq!['\n'], 0);
                }
                let line = s.take(i);
                let line = if line.len() > 0 && line.last() == '\r' {
                    line.drop_last()
                } else {
                    line
                };
                seq![line] + lines_of(s.skip(i + 1))
            },
            None => seq![s],
        }
    }
}

/// A statement on one line: a state declaration `state "label" as id` or
/// a transition `from --> to [: label]`.
pub enum SStateStmt {
    Decl(Seq<char>, Seq<char>),
    Trans(Seq<char>, Seq<char>, Option<Seq<char>>),
}

pub open spec fn kw_state() -> Seq<char> {
    seq!['s', 't', 'a', 't', 'e']
}

pub open spec fn kw_as() -> Seq<char> {
    seq!['a', 's']
}

pub open spec fn kw_arrow() -> Seq<char> {
    seq!['-', '-', '>']
}

pub open spec fn kw_star() -> Seq<char> {
    seq!['[', '*', ']']
}

/// A state reference at `i`: `[*]` or a run of name characters.
pub open spec fn sp_ref(s: Seq<char>, i: int) -> Option<(Seq<char>, int)> {
    if occurs_at(s, kw_star(), i) {
        Some((kw_star(), i + 3))
    } else {
        let e = run_end(s, i, CharClass::NameChar);
        if 0 <= i < e {
            Some((s.subrange(i, e), e))
        } else {
            None
        }
    }
}

/// `state "label" as id`, filling the whole of `s`.
pub open spec fn sp_decl(s: Seq<char>) -> Option<SStateStmt> {
    if !occurs_at(s, kw_state(), 0) {
        None
    } else {
        let i1 = run_end(s, 5, CharClass::Space);
        if i1 == 5 || !(i1 < s.len() && s[i1] == '"') {
            None
        } else {
            let j = run_end(s, i1 + 1, CharClass::NotQuote);
            if !(j < s.len()) {
                None
            } else {
                let k = run_end(s, j + 1, CharClass::Space);
                if k == j + 1 || !occurs_at(s, kw_as(), k) {
                    None
                } else {
                    let m = run_end(s, k + 2, CharClass::Space);
                    let e = run_end(s, m, CharClass::NameChar);
                    if m == k + 2 || e == m || e != s.len() {
                        None
                    } else {
                        Some(SStateStmt::Decl(s.subrange(m, e), s.subrange(i1 + 1, j)))
                    }
                }
            }
        }
    }
}

/// `from --> to`, optionally followed by `:` and a label, filling the whole
/// of `s`; the label is trimmed, and an empty label is no label.
pub open spec fn sp_trans(s: Seq<char>) -> Option<SStateStmt> {
    let i0 = run_end(s, 0, CharClass::Space);
    match sp_ref(s, i0) {
        None => None,
        Some((from, i1)) => {
            let i2 = run_end(s, i1, CharClass::Space);
            if !occurs_at(s, kw_arrow(), i2) {
                None
            } else {
                let i3 = run_end(s, i2 + 3, CharClass::Space);
                match sp_ref(s, i3) {
                    None => None,
                    Some((to, i4)) => {
                        let i5 = run_end(s, i4, CharClass::Space);
                        if i5 == s.len() {
                            Some(SStateStmt::Trans(from, to, None))
                        } else if s[i5] == ':' && run_end(s, i5 + 1, CharClass::NotNewline) == s.len() {
                            let l = trim(s.subrange(i5 + 1, s.len() as int));
                            Some(SStateStmt::Trans(from, to, if l.len() == 0 { None } else { Some(l) }))
                        } else {
                            None
                        }
                    },
                }
            }
        },
    }
}

/// A statement: a declaration if the text is one, else a transition.
pub open spec fn sp_state_stmt(s: Seq<char>) -> Option<SStateStmt> {
    match sp_decl(s) {
        Some(d) => Some(d),
        None => sp_trans(s),
    }
}

/// What `parse_statement` reads from its input, which it trims first.
pub open spec fn sp_statement_of(input: Seq<char>) -> Option<SStateStmt> {
    sp_state_stmt(trim(input))
}

pub open spec fn pct2() -> Seq<char> {
    seq!['%', '%']
}

/// A line with what follows `%%` cut off, trimmed.
pub open spec fn line_key(line: Seq<char>) -> Seq<char> {
    match first_occ(line, pct2(), 0) {
        Some(i) => trim(line.take(i)),
        None => trim(line),
    }
}

pub open spec fn is_header(t: Seq<char>) -> bool {
    has_prefix(lowercase(trim(t)), seq!['s', 't', 'a', 't', 'e', 'd', 'i', 'a', 'g', 'r', 'a', 'm'])
}

pub open spec fn is_comment_line(t: Seq<char>) -> bool {
    has_prefix(trim(t), pct2())
}

pub open spec fn kw_note() -> Seq<char> {
    seq!['n', 'o', 't', 'e', ' ']
}

pub open spec fn kw_left_of() -> Seq<char> {
    seq!['l', 'e', 'f', 't', ' ', 'o', 'f', ' ']
}

pub open spec fn kw_right_of() -> Seq<char> {
    seq!['r', 'i', 'g', 'h', 't', ' ', 'o', 'f', ' ']
}

pub open spec fn colon() -> Seq<char> {
    seq![':']
}

/// `note left of ID[: text]` or `note right of ID[: text]`: the side, the
/// trimmed identifier and the trimmed inline text.
pub open spec fn note_header(t: Seq<char>) -> Option<(NoteSide, Seq<char>, Option<Seq<char>>)> {
    if !has_prefix(t, kw_note()) {
        None
    } else {
        let rest = t.skip(5);
        let sided: Option<(NoteSide, Seq<char>)> = if has_prefix(rest, kw_left_of()) {
            Some((NoteSide::Left, rest.skip(8)))
        } else if has_prefix(rest, kw_right_of()) {
            Some((NoteSide::Right, rest.skip(9)))
        } else {
            None
        };
        match sided {
            None => None,
            Some((side, r)) => match first_occ(r, colon(), 0) {
                Some(i) => Some((side, trim(r.take(i)), Some(trim(r.skip(i + 1))))),
                None => Some((side, trim(r), None)),
            },
        }
    }
}

pub open spec fn kw_state_sp() -> Seq<char> {
    seq!['s', 't', 'a', 't', 'e', ' ']
}

pub open spec fn mk_choice() -> Seq<char> {
    seq!['<', '<', 'c', 'h', 'o', 'i', 'c', 'e', '>', '>']
}

pub open spec fn mk_fork() -> Seq<char> {
    seq!['<', '<', 'f', 'o', 'r', 'k', '>', '>']
}

pub open spec fn mk_join() -> Seq<char> {
    seq!['<', '<', 'j', 'o', 'i', 'n', '>', '>']
}

/// The identifier of `ID <<choice>>`, `ID <<fork>>` or `ID <<join>>`.
pub open spec fn special_state(rest: Seq<char>) -> Option<Seq<char>> {
    if has_suffix(rest, mk_choice()) {
        Some(trim(rest.take(rest.len() - 10)))
    } else if has_suffix(rest, mk_fork()) {
        Some(trim(rest.take(rest.len() - 8)))
    } else if has_suffix(rest, mk_join()) {
        Some(trim(rest.take(rest.len() - 8)))
    } else {
        None
    }
}

/// A non-empty run of name characters.
pub open spec fn all_name(rest: Seq<char>) -> bool {
    rest.len() > 0 && forall|i: int| 0 <= i < rest.len() ==> alnum(#[trigger] rest[i]) || rest[i] == '_'
}

/// `ID: description`, on a line that is neither a transition nor a note.
pub open spec fn description(t: Seq<char>) -> Option<(Seq<char>, Seq<char>)> {
    if contains_seq(t, kw_arrow()) || has_prefix(t, kw_note()) {
        None
    } else {
        match first_occ(t, colon(), 0) {
            Some(i) => {
                let id = trim(t.take(i));
                let label = trim(t.skip(i + 1));
                if id.len() > 0 && label.len() > 0 {
                    Some((id, label))
                } else {
                    None
                }
            },
            None => None,
        }
    }
}

/// What a line (or a note block) adds to the database.
pub enum SAction {
    State(Seq<char>, Seq<char>, NodeShape),
    Trans(Seq<char>, Seq<char>, Option<Seq<char>>),
    Note(Seq<char>, NoteSide, Seq<Seq<char>>),
}

/// Whether the reader is between lines or inside a note block.
pub enum SMode {
    Normal,
    InNote(Seq<char>, NoteSide, Seq<Seq<char>>),
}

pub open spec fn end_note() -> Seq<char> {
    seq!['e', 'n', 'd', ' ', 'n', 'o', 't', 'e']
}

/// What one line adds when read outside a note block, and whether it opens
/// a block.
pub open spec fn line_action(t: Seq<char>) -> (Option<SAction>, SMode) {
    if t.len() == 0 || is_comment_line(t) || is_header(t) {
        (None, SMode::Normal)
    } else {
        match note_header(t) {
            Some((side, id, Some(text))) => (Some(SAction::Note(id, side, seq![text])), SMode::Normal),
            Some((side, id, None)) => (None, SMode::InNote(id, side, Seq::empty())),
            None => {
                let rest = t.skip(6);
                if has_prefix(t, kw_state_sp()) && special_state(rest) is Some {
                    let id = special_state(rest)->0;
                    (Some(SAction::State(id, id, NodeShape::Diamond)), SMode::Normal)
                } else if has_prefix(t, kw_state_sp()) && all_name(rest) {
                    (Some(SAction::State(rest, rest, NodeShape::Rectangle)), SMode::Normal)
                } else {
                    match description(t) {
                        Some((id, label)) => (Some(SAction::State(id, label, NodeShape::Rectangle)), SMode::Normal),
                        None => match sp_statement_of(t) {
                            Some(SStateStmt::Decl(id, label)) => (
                                Some(SAction::State(id, label, NodeShape::Rectangle)),
                                SMode::Normal,
                            ),
                            Some(SStateStmt::Trans(from, to, label)) => (Some(SAction::Trans(from, to, label)), SMode::Normal),
                            None => (None, SMode::Normal),
                        },
                    }
                }
            },
        }
    }
}

/// The actions of lines `i..` read in mode `m`.
pub open spec fn actions_from(lines: Seq<Seq<char>>, i: int, m: SMode) -> Seq<SAction>
    decreases lines.len() - i,
{
    if i < 0 || i >= lines.len() {
        match m {
            SMode::InNote(id, side, text) => seq![SAction::Note(id, side, text)],
            SMode::Normal => Seq::empty(),
        }
    } else {
        match m {
            SMode::InNote(id, side, text) => {
                let l = trim(lines[i]);
                if l == end_note() {
                    seq![SAction::Note(id, side, text)] + actions_from(lines, i + 1, SMode::Normal)
                } else {
                    actions_from(
                        lines,
                        i + 1,
                        SMode::InNote(id, side, if l.len() > 0 { text.push(l) } else { text }),
                    )
                }
            },
            SMode::Normal => {
                let (a, m2) = line_action(line_key(lines[i]));
                match a {
                    Some(act) => seq![act] + actions_from(lines, i + 1, m2),
                    None => actions_from(lines, i + 1, m2),
                }
            },
        }
    }
}

/// What a whole source adds to a database.
pub open spec fn source_actions(input: Seq<char>) -> Seq<SAction> {
    actions_from(lines_of(input), 0, SMode::Normal)
}

/// The database contents that the parser works on: states, transitions,
/// notes, and the start and end flags.
pub type DbModel = (
    Seq<(Seq<char>, Seq<char>, NodeShape)>,
    Seq<(Seq<char>, Seq<char>, EdgeType, Option<Seq<char>>)>,
    Seq<(Seq<char>, NoteSide, Seq<Seq<char>>)>,
    bool,
    bool,
);

/// One action applied to a database, as `add_state`, `add_transition` and
/// `add_note` do it.
pub open spec fn apply_action(d: DbModel, a: SAction) -> DbModel {
    match a {
        SAction::State(id, label, shape) => (merged(d.0, (id, label, shape)), d.1, d.2, d.3, d.4),
        SAction::Trans(from, to, label) => {
            let f = endpoint(from, start_id());
            let t = endpoint(to, end_id());
            (
                ensured(ensured(d.0, f), t),
                d.1.push((f, t, EdgeType::Arrow, label)),
                d.2,
                d.3 || from == kw_star(),
                d.4 || to == kw_star(),
            )
        },
        SAction::Note(id, side, text) => (d.0, d.1, d.2.push((id, side, text)), d.3, d.4),
    }
}

pub open spec fn apply_actions(d: DbModel, acts: Seq<SAction>) -> DbModel
    decreases acts.len(),
{
    if acts.len() == 0 {
        d
    } else {
        apply_action(apply_actions(d, acts.drop_last()), acts.last())
    }
}

/// The first note that names no state.
pub open spec fn unknown_note(d: DbModel) -> Option<Seq<char>> {
    first_unknown(d.0, d.2)
}

pub open spec fn first_unknown(
    states: Seq<(Seq<char>, Seq<char>, NodeShape)>,
    notes: Seq<(Seq<char>, NoteSide, Seq<Seq<char>>)>,
) -> Option<Seq<char>>
    decreases notes.len(),
{
    if notes.len() == 0 {
        None
    } else {
        match first_unknown(states, notes.drop_last()) {
            Some(id) => Some(id),
            None => if state_pos(states, notes.last().0) is None {
                Some(notes.last().0)
            } else {
                None
            },
        }
    }
}

/// Whether `can_parse` accepts a source: it starts (trimmed, lower-cased)
/// with `statediagram`, or mentions `[*]`.
pub open spec fn state_source(input: Seq<char>) -> bool {
    has_prefix(lowercase(trim(input)), seq!['s', 't', 'a', 't', 'e', 'd', 'i', 'a', 'g', 'r', 'a', 'm'])
        || contains_seq(input, kw_star())
}

/// Whether an action adds a transition from `[*]`.
pub open spec fn from_star(a: SAction) -> bool {
    a matches SAction::Trans(f, _, _) && f == kw_star()
}

/// Whether an action adds a transition to `[*]`.
pub open spec fn to_star(a: SAction) -> bool {
    a matches SAction::Trans(_, t, _) && t == kw_star()
}

/// A database with nothing in it, as the parser sees it.
pub open spec fn empty_db_model() -> DbModel {
    (Seq::empty(), Seq::empty(), Seq::empty(), false, false)
}

/// Over any sequence of additions to an empty database, the start flag is
/// set exactly when some transition comes from `[*]`, and then the start
/// terminal is a state; likewise the end flag, for a transition to `[*]`,
/// and the end terminal.
pub proof fn lemma_flags_over_actions(acts: Seq<SAction>)
    ensures
        apply_actions(empty_db_model(), acts).3 <==> exists|k: int| 0 <= k < acts.len() && #[trigger] from_star(acts[k]),
        apply_actions(empty_db_model(), acts).4 <==> exists|k: int| 0 <= k < acts.len() && #[trigger] to_star(acts[k]),
        apply_actions(empty_db_model(), acts).3 ==> state_pos(apply_actions(empty_db_model(), acts).0, start_id()) is Some,
        apply_actions(empty_db_model(), acts).4 ==> state_pos(apply_actions(empty_db_model(), acts).0, end_id()) is Some,
    decreases acts.len(),
{
    if acts.len() > 0 {
        let prev = acts.drop_last();
        lemma_flags_over_actions(prev);
        let d = apply_actions(empty_db_model(), prev);
        let a = acts.last();
        assert forall|k: int| 0 <= k < prev.len() implies prev[k] == acts[k] by {}
        if exists|k: int| 0 <= k < prev.len() && #[trigger] from_star(prev[k]) {
            let k = choose|k: int| 0 <= k < prev.len() && #[trigger] from_star(prev[k]);
            assert(from_star(acts[k]));
        }
        if exists|k: int| 0 <= k < prev.len() && #[trigger] to_star(prev[k]) {
            let k = choose|k: int| 0 <= k < prev.len() && #[trigger] to_star(prev[k]);
            assert(to_star(acts[k]));
        }
        if from_star(a) {
            assert(from_star(acts[acts.len() - 1]));
        }
        if to_star(a) {
            assert(to_star(acts[acts.len() - 1]));
        }
        if exists|k: int| 0 <= k < acts.len() && #[trigger] from_star(acts[k]) {
            let k = choose|k: int| 0 <= k < acts.len() && #[trigger] from_star(acts[k]);
            if k < prev.len() {
                assert(from_star(prev[k]));
            }
        }
        if exists|k: int| 0 <= k < acts.len() && #[trigger] to_star(acts[k]) {
            let k = choose|k: int| 0 <= k < acts.len() && #[trigger] to_star(acts[k]);
            if k < prev.len() {
                assert(to_star(prev[k]));
            }
        }
        match a {
            SAction::State(id, label, shape) => {
                if d.3 {
                    lemma_pos_kept_merged(d.0, (id, label, shape), start_id());
                }
                if d.4 {
                    lemma_pos_kept_merged(d.0, (id, label, shape), end_id());
                }
            },
            SAction::Trans(from, to, label) => {
                let f = endpoint(from, start_id());
                let t = endpoint(to, end_id());
                let s1 = ensured(d.0, f);
                lemma_ensured(d.0, f);
                lemma_ensured(s1, t);
                if d.3 {
                    lemma_pos_kept_ensured(d.0, f, start_id());
                    lemma_pos_kept_ensured(s1, t, start_id());
                }
                if d.4 {
                    lemma_pos_kept_ensured(d.0, f, end_id());
                    lemma_pos_kept_ensured(s1, t, end_id());
                }
                if from == kw_star() {
                    lemma_pos_kept_ensured(s1, t, f);
                }
            },
            SAction::Note(..) => {},
        }
    }
}

proof fn lemma_occurs_pct(s: Seq<char>, t: Seq<char>, k: int)
    requires
        occurs_at(s, seq!['%', '%'], k),
        0 <= k,
        k + 2 <= t.len(),
        t[k] == s[k],
        t[k + 1] == s[k + 1],
    ensures
        occurs_at(t, seq!['%', '%'], k),
{
    assert(s.subrange(k, k + 2)[0] == s[k]);
    assert(s.subrange(k, k + 2)[1] == s[k + 1]);
    assert(t.subrange(k, k + 2) =~= seq!['%', '%']);
}

/// A `%%` comment at the end of a line does not change what the line says:
/// for a line `l` in which `%%` does not occur (not even with one more `%`
/// after it, which would start the comment one column earlier), `l`
/// followed by `%%` and any text reads exactly as `l`.
pub proof fn lemma_comment_line(l: Seq<char>, c: Seq<char>)
    requires
        !contains_seq(l.push('%'), seq!['%', '%']),
    ensures
        line_action(line_key(l + seq!['%', '%'] + c)) == line_action(line_key(l)),
        line_key(l + seq!['%', '%'] + c) == trim(l),
{
    lemma_comment_key(l, c);
}

proof fn lemma_comment_key(l: Seq<char>, c: Seq<char>)
    requires
        !contains_seq(l.push('%'), seq!['%', '%']),
    ensures
        line_key(l + seq!['%', '%'] + c) == trim(l),
        line_key(l) == trim(l),
{
    let s = l + seq!['%', '%'] + c;
    let n = l.len() as int;
    let lp = l.push('%');
    assert(pct2() =~= seq!['%', '%']);
    assert(s.subrange(n, n + 2) =~= seq!['%', '%']);
    assert(occurs_at(s, pct2(), n));
    assert forall|k: int| 0 <= k < n implies !occurs_at(s, pct2(), k) by {
        if occurs_at(s, pct2(), k) {
            assert(s[k] == lp[k]);
            assert(s[k + 1] == lp[k + 1]);
            lemma_occurs_pct(s, lp, k);
        }
    }
    lemma_first_occ(s, pct2(), 0);
    if first_occ(s, pct2(), 0) is Some {
        let j = first_occ(s, pct2(), 0)->0;
        assert(j <= n);
        assert(j >= n);
    }
    assert(first_occ(s, pct2(), 0) == Some(n));
    assert(s.take(n) =~= l);
    lemma_first_occ(l, pct2(), 0);
    if first_occ(l, pct2(), 0) is Some {
        let j = first_occ(l, pct2(), 0)->0;
        assert(l[j] == lp[j]);
        assert(l[j + 1] == lp[j + 1]);
        lemma_occurs_pct(l, lp, j);
    }
}

proof fn lemma_actions_from_same(a: Seq<Seq<char>>, b: Seq<Seq<char>>, j: int, m: SMode)
    requires
        a.len() == b.len(),
        0 <= j,
        forall|k: int| j <= k < a.len() ==> a[k] == b[k],
    ensures
        actions_from(a, j, m) == actions_from(b, j, m),
    decreases a.len() - j,
{
    if j < a.len() {
        assert(a[j] == b[j]);
        match m {
            SMode::InNote(id, side, text) => {
                let l = trim(a[j]);
                lemma_actions_from_same(a, b, j + 1, SMode::Normal);
                lemma_actions_from_same(
                    a,
                    b,
                    j + 1,
                    SMode::InNote(id, side, if l.len() > 0 { text.push(l) } else { text }),
                );
            },
            SMode::Normal => {
                let (act, m2) = line_action(line_key(a[j]));
                lemma_actions_from_same(a, b, j + 1, m2);
            },
        }
    }
}

/// Read between note blocks, a line that ends in a `%%` comment adds to
/// the database exactly what the line without the comment adds, and so do
/// the lines after it: swapping `l` + `%%` + `c` for `l` at line `i`
/// changes nothing that is read from line `i` on.
pub proof fn lemma_comment_in_source(lines: Seq<Seq<char>>, i: int, l: Seq<char>, c: Seq<char>)
    requires
        0 <= i < lines.len(),
        !contains_seq(l.push('%'), seq!['%', '%']),
    ensures
        actions_from(lines.update(i, l + seq!['%', '%'] + c), i, SMode::Normal) == actions_from(
            lines.update(i, l),
            i,
            SMode::Normal,
        ),
{
    let a = lines.update(i, l + seq!['%', '%'] + c);
    let b = lines.update(i, l);
    lemma_comment_line(l, c);
    let (act, m2) = line_action(line_key(a[i]));
    lemma_actions_from_same(a, b, i + 1, m2);
}

/// A whole source whose first line ends in a `%%` comment adds to a
/// database exactly what it adds with the comment taken off.
pub proof fn lemma_comment_first_line(l: Seq<char>, c: Seq<char>, rest: Seq<char>)
    requires
        !contains_seq(l.push('%'), seq!['%', '%']),
        !contains_seq(l, seq!['\n']),
        !contains_seq(c, seq!['\n']),
        l.len() == 0 || l.last() != '\r',
    ensures
        source_actions(l + seq!['%', '%'] + c + seq!['\n'] + rest) == source_actions(l + seq!['\n'] + rest),
{
    let x = l + seq!['%', '%'] + c;
    let sa = x + seq!['\n'] + rest;
    let sb = l + seq!['\n'] + rest;
    lemma_first_nl(l, rest);
    assert(!contains_seq(x, seq!['\n'])) by {
        if contains_seq(x, seq!['\n']) {
            let k = choose|k: int| occurs_at(x, seq!['\n'], k);
            assert(x.subrange(k, k + 1)[0] == x[k]);
            if k < l.len() {
                assert(l.subrange(k, k + 1) =~= seq!['\n']);
                assert(occurs_at(l, seq!['\n'], k));
            } else if k >= l.len() + 2 {
                assert(c.subrange(k - l.len() - 2, k - l.len() - 1) =~= seq!['\n']);
                assert(occurs_at(c, seq!['\n'], k - l.len() - 2));
            }
        }
    }
    lemma_first_nl(x, rest);
    let la = lines_of(sa);
    let lb = lines_of(sb);
    let xa = if x.len() > 0 && x.last() == '\r' { x.drop_last() } else { x };
    assert(la == seq![xa] + lines_of(rest));
    assert(lb == seq![l] + lines_of(rest));
    let c2 = if c.len() > 0 && c.last() == '\r' { c.drop_last() } else { c };
    assert(xa =~= l + seq!['%', '%'] + c2);
    assert(la =~= lb.update(0, l + seq!['%', '%'] + c2));
    assert(lb =~= lb.update(0, l));
    lemma_comment_in_source(lb, 0, l, c2);
}

/// In `x` + `\n` + `rest`, with no line break in `x`, the first line break
/// follows `x`.
proof fn lemma_first_nl(x: Seq<char>, rest: Seq<char>)
    requires
        !contains_seq(x, seq!['\n']),
    ensures
        lines_of(x + seq!['\n'] + rest) == seq![if x.len() > 0 && x.last() == '\r' { x.drop_last() } else { x }]
            + lines_of(rest),
{
    let s = x + seq!['\n'] + rest;
    let n = x.len() as int;
    assert(s.subrange(n, n + 1) =~= seq!['\n']);
    assert(occurs_at(s, seq!['\n'], n));
    assert forall|k: int| 0 <= k < n implies !occurs_at(s, seq!['\n'], k) by {
        if occurs_at(s, seq!['\n'], k) {
            assert(s.subrange(k, k + 1)[0] == s[k]);
            assert(x.subrange(k, k + 1) =~= seq!['\n']);
            assert(occurs_at(x, seq!['\n'], k));
        }
    }
    lemma_first_occ(s, seq!['\n'], 0);
    if first_occ(s, seq!['\n'], 0) is Some {
        let j = first_occ(s, seq!['\n'], 0)->0;
        assert(j <= n);
        assert(j >= n);
    }
    assert(first_occ(s, seq!['\n'], 0) == Some(n));
    assert(s.take(n) =~= x);
    assert(s.skip(n + 1) =~= rest);
}

} // verus!
