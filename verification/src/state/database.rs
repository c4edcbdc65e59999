//! The states, transitions and notes of a state diagram.
use crate::model::{own, DiagramError, EdgeData, EdgeType, NodeData, NodeShape};
use crate::text::to_chars;
use vstd::prelude::*;

verus! {

/// The side of a state that a note is drawn on.
#[derive(Clone, Copy, Debug, PartialEq, Eq, Structural)]
pub enum NoteSide {
    Left,
    Right,
}

/// A note attached to a state.
#[derive(Clone, Debug)]
pub struct StateNote {
    pub state_id: String,
    pub side: NoteSide,
    pub text: Vec<String>,
}

/// Identifier of the start terminal, which `[*]` becomes as a source.
pub const START_TERMINAL: &'static str = "[*]_start";

/// Identifier of the end terminal, which `[*]` becomes as a target.
pub const END_TERMINAL: &'static str = "[*]_end";

pub open spec fn start_id() -> Seq<char> {
    seq!['[', '*', ']', '_', 's', 't', 'a', 'r', 't']
}

pub open spec fn end_id() -> Seq<char> {
    seq!['[', '*', ']', '_', 'e', 'n', 'd']
}

pub open spec fn star_id() -> Seq<char> {
    seq!['[', '*', ']']
}

/// A label as characters.
pub open spec fn label_view(l: Option<String>) -> Option<Seq<char>> {
    match l {
        Some(s) => Some(s@),
        None => None,
    }
}

/// A node as identifier, label and shape.
pub open spec fn node_view(n: NodeData) -> (Seq<char>, Seq<char>, NodeShape) {
    (n.id@, n.label@, n.shape)
}

/// An edge as source, target, kind and label.
pub open spec fn edge_view(e: EdgeData) -> (Seq<char>, Seq<char>, EdgeType, Option<Seq<char>>) {
    (e.from@, e.to@, e.edge_type, label_view(e.label))
}

/// A note as state, side and lines.
pub open spec fn note_view(n: StateNote) -> (Seq<char>, NoteSide, Seq<Seq<char>>) {
    (n.state_id@, n.side, n.text@.map_values(|l: String| l@))
}

/// The first state with identifier `id`.
pub open spec fn state_pos(s: Seq<(Seq<char>, Seq<char>, NodeShape)>, id: Seq<char>) -> Option<int>
    decreases s.len(),
{
    if s.len() == 0 {
        None
    } else {
        match state_pos(s.drop_last(), id) {
            Some(i) => Some(i),
            None => if s.last().0 == id {
                Some(s.len() - 1)
            } else {
                None
            },
        }
    }
}

pub proof fn lemma_state_pos(s: Seq<(Seq<char>, Seq<char>, NodeShape)>, id: Seq<char>)
    ensures
        state_pos(s, id) matches Some(i) ==> 0 <= i < s.len() && s[i].0 == id && forall|j: int|
            0 <= j < i ==> (#[trigger] s[j]).0 != id,
        state_pos(s, id) is None ==> forall|j: int| 0 <= j < s.len() ==> (#[trigger] s[j]).0 != id,
    decreases s.len(),
{
    if s.len() > 0 {
        lemma_state_pos(s.drop_last(), id);
        assert forall|j: int| 0 <= j < s.len() - 1 implies s[j] == s.drop_last()[j] by {}
    }
}

pub proof fn lemma_state_pos_is(s: Seq<(Seq<char>, Seq<char>, NodeShape)>, id: Seq<char>, i: int)
    requires
        0 <= i <= s.len(),
        forall|j: int| 0 <= j < i ==> (#[trigger] s[j]).0 != id,
        i < s.len() ==> s[i].0 == id,
    ensures
        state_pos(s, id) == (if i < s.len() {
            Some(i)
        } else {
            None::<int>
        }),
{
    lemma_state_pos(s, id);
}

/// The states after adding `n`: a state with the same identifier takes the
/// new label, and the new shape unless that would turn a special shape back
/// into a rectangle; otherwise `n` is appended.
pub open spec fn merged(s: Seq<(Seq<char>, Seq<char>, NodeShape)>, n: (Seq<char>, Seq<char>, NodeShape)) -> Seq<(Seq<char>, Seq<char>, NodeShape)> {
    match state_pos(s, n.0) {
        Some(i) => s.update(
            i,
            (
                s[i].0,
                n.1,
                if s[i].2 == NodeShape::Rectangle || n.2 != NodeShape::Rectangle {
                    n.2
                } else {
                    s[i].2
                },
            ),
        ),
        None => s.push(n),
    }
}

/// A state that exists still exists after another is added or updated.
pub proof fn lemma_pos_kept_merged(s: Seq<(Seq<char>, Seq<char>, NodeShape)>, n: (Seq<char>, Seq<char>, NodeShape), x: Seq<char>)
    requires
        state_pos(s, x) is Some,
    ensures
        state_pos(merged(s, n), x) is Some,
{
    lemma_state_pos(s, x);
    lemma_state_pos(s, n.0);
    let e = merged(s, n);
    let a = state_pos(s, x)->0;
    assert(e[a].0 == s[a].0);
    lemma_state_pos(e, x);
}

/// A state that exists still exists after making sure of another.
pub proof fn lemma_pos_kept_ensured(s: Seq<(Seq<char>, Seq<char>, NodeShape)>, id: Seq<char>, x: Seq<char>)
    requires
        state_pos(s, x) is Some,
    ensures
        state_pos(ensured(s, id), x) is Some,
{
    lemma_state_pos(s, x);
    lemma_state_pos(s, id);
    let e = ensured(s, id);
    let a = state_pos(s, x)->0;
    assert(e[a] == s[a]);
    lemma_state_pos(e, x);
}

/// Adding the same state twice leaves the states as adding it once.
pub proof fn lemma_add_state_twice(s: Seq<(Seq<char>, Seq<char>, NodeShape)>, n: (Seq<char>, Seq<char>, NodeShape))
    ensures
        merged(merged(s, n), n) == merged(s, n),
{
    let once = merged(s, n);
    lemma_state_pos(s, n.0);
    match state_pos(s, n.0) {
        Some(i) => {
            assert forall|j: int| 0 <= j < i implies (#[trigger] once[j]).0 != n.0 by {
                assert(once[j] == s[j]);
            }
            lemma_state_pos_is(once, n.0, i);
            assert(merged(once, n) =~= once);
        },
        None => {
            assert forall|j: int| 0 <= j < s.len() implies (#[trigger] once[j]).0 != n.0 by {
                assert(once[j] == s[j]);
            }
            lemma_state_pos_is(once, n.0, s.len() as int);
            assert(merged(once, n) =~= once);
        },
    }
}

/// Making sure a state exists is idempotent, and afterwards a state with
/// that identifier is there.
pub proof fn lemma_ensured(s: Seq<(Seq<char>, Seq<char>, NodeShape)>, id: Seq<char>)
    ensures
        ensured(ensured(s, id), id) == ensured(s, id),
        state_pos(ensured(s, id), id) is Some,
{
    let once = ensured(s, id);
    lemma_state_pos(s, id);
    match state_pos(s, id) {
        Some(i) => {},
        None => {
            assert forall|j: int| 0 <= j < s.len() implies (#[trigger] once[j]).0 != id by {
                assert(once[j] == s[j]);
            }
            lemma_state_pos_is(once, id, s.len() as int);
        },
    }
}

/// The states after making sure that `id` exists: an absent identifier is
/// appended as a state labelled with itself, a terminal for the two terminal
/// identifiers and a rectangle otherwise.
pub open spec fn ensured(s: Seq<(Seq<char>, Seq<char>, NodeShape)>, id: Seq<char>) -> Seq<(Seq<char>, Seq<char>, NodeShape)> {
    match state_pos(s, id) {
        Some(_) => s,
        None => s.push(
            (
                id,
                id,
                if id == start_id() || id == end_id() {
                    NodeShape::Terminal
                } else {
                    NodeShape::Rectangle
                },
            ),
        ),
    }
}

/// The identifier that an endpoint `[*]` stands for, or the endpoint itself.
pub open spec fn endpoint(id: Seq<char>, terminal: Seq<char>) -> Seq<char> {
    if id == star_id() {
        terminal
    } else {
        id
    }
}

/// The states, transitions and notes of a state diagram, with whether `[*]`
/// has been used as a source (start) and as a target (end).
pub struct StateDatabase {
    states: Vec<NodeData>,
    transitions: Vec<EdgeData>,
    notes: Vec<StateNote>,
    has_start: bool,
    has_end: bool,
}

impl StateDatabase {
    /// The states, in the order they were first added.
    pub closed spec fn state_views(&self) -> Seq<(Seq<char>, Seq<char>, NodeShape)> {
        self.states@.map_values(|n: NodeData| node_view(n))
    }

    /// The transitions, in order.
    pub closed spec fn transition_views(&self) -> Seq<(Seq<char>, Seq<char>, EdgeType, Option<Seq<char>>)> {
        self.transitions@.map_values(|e: EdgeData| edge_view(e))
    }

    /// The notes, in order.
    pub closed spec fn note_views(&self) -> Seq<(Seq<char>, NoteSide, Seq<Seq<char>>)> {
        self.notes@.map_values(|n: StateNote| note_view(n))
    }

    pub closed spec fn start_flag(&self) -> bool {
        self.has_start
    }

    pub closed spec fn end_flag(&self) -> bool {
        self.has_end
    }

    /// State identifiers are unique, every transition joins two states, and
    /// once `[*]` has been used as a source (target) the start (end)
    /// terminal is a state.
    pub open spec fn wf(&self) -> bool {
        let s = self.state_views();
        &&& forall|i: int, j: int| 0 <= i < j < s.len() ==> s[i].0 != s[j].0
        &&& forall|k: int|
            0 <= k < self.transition_views().len() ==> (state_pos(s, #[trigger] self.transition_views()[k].0) is Some
                && state_pos(s, self.transition_views()[k].1) is Some)
        &&& self.start_flag() ==> state_pos(s, start_id()) is Some
        &&& self.end_flag() ==> state_pos(s, end_id()) is Some
    }

    /// An empty database.
    pub fn new() -> (r: Self)
        ensures
            r.wf(),
            r.state_views().len() == 0,
            r.transition_views().len() == 0,
            r.note_views().len() == 0,
            !r.start_flag(),
            !r.end_flag(),
    {
        let r = StateDatabase {
            states: Vec::new(),
            transitions: Vec::new(),
            notes: Vec::new(),
            has_start: false,
            has_end: false,
        };
        assert(r.state_views() =~= Seq::empty());
        assert(r.transition_views() =~= Seq::empty());
        r
    }

    fn position(&self, id: &str) -> (r: Option<usize>)
        ensures
            r matches Some(i) ==> state_pos(self.state_views(), id@) == Some(i as int),
            r is None ==> state_pos(self.state_views(), id@) is None,
    {
        let ghost s = self.state_views();
        let mut i: usize = 0;
        while i < self.states.len()
            invariant
                i <= self.states.len(),
                s == self.state_views(),
                s.len() == self.states.len(),
                forall|j: int| 0 <= j < i ==> (#[trigger] s[j]).0 != id@,
            decreases self.states.len() - i,
        {
            let here = to_chars(self.states[i].id.as_str());
            let target = to_chars(id);
            assert(s[i as int].0 == self.states@[i as int].id@);
            if crate::text::same_chars(&here, &target) {
                proof {
                    lemma_state_pos_is(s, id@, i as int);
                }
                return Some(i);
            }
            i += 1;
        }
        proof {
            lemma_state_pos_is(s, id@, i as int);
        }
        None
    }

    /// Add a state, or update the state with the same identifier: it takes
    /// the new label, and the new shape unless the new shape is a rectangle
    /// and the old one is not.
    pub fn add_state(&mut self, state: NodeData) -> (r: Result<(), DiagramError>)
        requires
            old(self).wf(),
        ensures
            r is Ok,
            final(self).wf(),
            final(self).state_views() == merged(old(self).state_views(), node_view(state)),
            final(self).transition_views() == old(self).transition_views(),
            final(self).note_views() == old(self).note_views(),
            final(self).start_flag() == old(self).start_flag(),
            final(self).end_flag() == old(self).end_flag(),
    {
        let ghost s = self.state_views();
        let ghost t = self.transition_views();
        proof {
            lemma_state_pos(s, state.id@);
        }
        match self.position(state.id.as_str()) {
            Some(i) => {
                let old_shape = self.states[i].shape;
                let shape = if old_shape == NodeShape::Rectangle || state.shape != NodeShape::Rectangle {
                    state.shape
                } else {
                    old_shape
                };
                let id = self.states[i].id.clone();
                let updated = NodeData { id, label: state.label, shape };
                self.states.set(i, updated);
                assert(self.state_views() =~= merged(s, node_view(state)));
                assert forall|k: int| 0 <= k < t.len() implies state_pos(self.state_views(), #[trigger] t[k].0) is Some
                    && state_pos(self.state_views(), t[k].1) is Some by {
                    lemma_state_pos(s, t[k].0);
                    lemma_state_pos(s, t[k].1);
                    lemma_state_pos(self.state_views(), t[k].0);
                    lemma_state_pos(self.state_views(), t[k].1);
                    let a = state_pos(s, t[k].0)->0;
                    let b = state_pos(s, t[k].1)->0;
                    assert(self.state_views()[a].0 == t[k].0);
                    assert(self.state_views()[b].0 == t[k].1);
                }
            },
            None => {
                self.states.push(state);
                assert(self.state_views() =~= merged(s, node_view(state)));
                assert forall|k: int| 0 <= k < t.len() implies state_pos(self.state_views(), #[trigger] t[k].0) is Some
                    && state_pos(self.state_views(), t[k].1) is Some by {
                    lemma_state_pos(s, t[k].0);
                    lemma_state_pos(s, t[k].1);
                    lemma_state_pos(self.state_views(), t[k].0);
                    lemma_state_pos(self.state_views(), t[k].1);
                    let a = state_pos(s, t[k].0)->0;
                    let b = state_pos(s, t[k].1)->0;
                    assert(self.state_views()[a].0 == t[k].0);
                    assert(self.state_views()[b].0 == t[k].1);
                }
            },
        }
        assert(self.transition_views() == t);
        proof {
            if self.start_flag() {
                lemma_pos_kept_merged(s, node_view(state), start_id());
            }
            if self.end_flag() {
                lemma_pos_kept_merged(s, node_view(state), end_id());
            }
        }
        Ok(())
    }

    /// Append a note.
    pub fn add_note(&mut self, note: StateNote)
        requires
            old(self).wf(),
        ensures
            final(self).wf(),
            final(self).state_views() == old(self).state_views(),
            final(self).transition_views() == old(self).transition_views(),
            final(self).note_views() == old(self).note_views().push(note_view(note)),
            final(self).start_flag() == old(self).start_flag(),
            final(self).end_flag() == old(self).end_flag(),
    {
        let ghost n = self.note_views();
        self.notes.push(note);
        assert(self.note_views() =~= n.push(note_view(note)));
    }

    /// Make sure that a state with identifier `id` exists.
    fn ensure_state_internal(&mut self, id: &str)
        requires
            old(self).wf(),
        ensures
            final(self).wf(),
            final(self).state_views() == ensured(old(self).state_views(), id@),
            final(self).transition_views() == old(self).transition_views(),
            final(self).note_views() == old(self).note_views(),
            final(self).start_flag() == old(self).start_flag(),
            final(self).end_flag() == old(self).end_flag(),
    {
        let ghost s = self.state_views();
        let ghost t = self.transition_views();
        proof {
            lemma_state_pos(s, id@);
        }
        if self.position(id).is_none() {
            let v = to_chars(id);
            let start = to_chars(START_TERMINAL);
            let end = to_chars(END_TERMINAL);
            proof {
                reveal_strlit("[*]_start");
                reveal_strlit("[*]_end");
            }
            assert(start@ =~= start_id());
            assert(end@ =~= end_id());
            let shape = if crate::text::same_chars(&v, &start) || crate::text::same_chars(&v, &end) {
                NodeShape::Terminal
            } else {
                NodeShape::Rectangle
            };
            self.states.push(NodeData::with_shape(id, id, shape));
            assert(self.state_views() =~= ensured(s, id@));
            assert forall|k: int| 0 <= k < t.len() implies state_pos(self.state_views(), #[trigger] t[k].0) is Some
                && state_pos(self.state_views(), t[k].1) is Some by {
                lemma_state_pos(s, t[k].0);
                lemma_state_pos(s, t[k].1);
                lemma_state_pos(self.state_views(), t[k].0);
                lemma_state_pos(self.state_views(), t[k].1);
                let a = state_pos(s, t[k].0)->0;
                let b = state_pos(s, t[k].1)->0;
                assert(self.state_views()[a].0 == t[k].0);
                assert(self.state_views()[b].0 == t[k].1);
            }
        }
        proof {
            if self.start_flag() {
                lemma_pos_kept_ensured(s, id@, start_id());
            }
            if self.end_flag() {
                lemma_pos_kept_ensured(s, id@, end_id());
            }
        }
    }

    /// Add a transition. `[*]` as its source stands for the start terminal
    /// and as its target for the end terminal; both ends are created as
    /// states when missing.
    pub fn add_transition(&mut self, transition: EdgeData) -> (r: Result<(), DiagramError>)
        requires
            old(self).wf(),
        ensures
            r is Ok,
            final(self).wf(),
            final(self).start_flag() == (old(self).start_flag() || transition.from@ == star_id()),
            final(self).end_flag() == (old(self).end_flag() || transition.to@ == star_id()),
            final(self).state_views() == ensured(
                ensured(old(self).state_views(), endpoint(transition.from@, start_id())),
                endpoint(transition.to@, end_id()),
            ),
            final(self).transition_views() == old(self).transition_views().push(
                (
                    endpoint(transition.from@, start_id()),
                    endpoint(transition.to@, end_id()),
                    transition.edge_type,
                    label_view(transition.label),
                ),
            ),
            final(self).note_views() == old(self).note_views(),
    {
        let star = to_chars("[*]");
        proof {
            reveal_strlit("[*]");
            reveal_strlit("[*]_start");
            reveal_strlit("[*]_end");
        }
        assert(star@ =~= star_id());
        let from_star = crate::text::same_chars(&to_chars(transition.from.as_str()), &star);
        let to_star = crate::text::same_chars(&to_chars(transition.to.as_str()), &star);
        let from = if from_star {
            own(START_TERMINAL)
        } else {
            transition.from.clone()
        };
        let to = if to_star {
            own(END_TERMINAL)
        } else {
            transition.to.clone()
        };
        assert(from@ == endpoint(transition.from@, start_id()));
        assert(to@ == endpoint(transition.to@, end_id()));
        let ghost s0 = self.state_views();
        self.ensure_state_internal(from.as_str());
        let ghost s1 = self.state_views();
        self.ensure_state_internal(to.as_str());
        let ghost s = self.state_views();
        let ghost t = self.transition_views();
        proof {
            lemma_state_pos(s0, from@);
            lemma_state_pos(s1, from@);
            lemma_state_pos(s1, to@);
            let a = state_pos(s1, from@)->0;
            assert(s[a] == s1[a]);
            lemma_state_pos(s, from@);
            lemma_state_pos(s, to@);
            if self.start_flag() {
                lemma_pos_kept_ensured(s0, from@, start_id());
                lemma_pos_kept_ensured(s1, to@, start_id());
            }
            if self.end_flag() {
                lemma_pos_kept_ensured(s0, from@, end_id());
                lemma_pos_kept_ensured(s1, to@, end_id());
            }
        }
        if from_star {
            self.has_start = true;
        }
        if to_star {
            self.has_end = true;
        }
        let modified = EdgeData { from, to, edge_type: transition.edge_type, label: transition.label };
        self.transitions.push(modified);
        assert(self.transition_views() =~= t.push(edge_view(modified)));
        Ok(())
    }

    /// Whether `[*]` has been used as a source.
    pub fn has_start_terminal(&self) -> (r: bool)
        ensures
            r == self.start_flag(),
    {
        self.has_start
    }

    /// Whether `[*]` has been used as a target.
    pub fn has_end_terminal(&self) -> (r: bool)
        ensures
            r == self.end_flag(),
    {
        self.has_end
    }

    /// All states.
    pub fn states(&self) -> (r: &[NodeData])
        ensures
            r@.map_values(|n: NodeData| node_view(n)) == self.state_views(),
    {
        self.states.as_slice()
    }

    /// All transitions.
    pub fn transitions(&self) -> (r: &[EdgeData])
        ensures
            r@.map_values(|e: EdgeData| edge_view(e)) == self.transition_views(),
    {
        self.transitions.as_slice()
    }

    /// All notes.
    pub fn notes(&self) -> (r: &[StateNote])
        ensures
            r@.map_values(|n: StateNote| note_view(n)) == self.note_views(),
    {
        self.notes.as_slice()
    }

    /// Number of states.
    pub fn state_count(&self) -> (r: usize)
        ensures
            r == self.state_views().len(),
    {
        self.states.len()
    }

    /// Number of transitions.
    pub fn transition_count(&self) -> (r: usize)
        ensures
            r == self.transition_views().len(),
    {
        self.transitions.len()
    }

    /// Position of the state with identifier `id`.
    pub fn state_index(&self, id: &str) -> (r: Option<usize>)
        ensures
            r matches Some(i) ==> state_pos(self.state_views(), id@) == Some(i as int),
            r is None ==> state_pos(self.state_views(), id@) is None,
    {
        self.position(id)
    }

    /// Clear all data: states, transitions, notes and the terminal flags.
    pub fn clear_all(&mut self)
        ensures
            final(self).wf(),
            final(self).state_views().len() == 0,
            final(self).transition_views().len() == 0,
            final(self).note_views().len() == 0,
            !final(self).start_flag(),
            !final(self).end_flag(),
    {
        self.states.clear();
        self.transitions.clear();
        self.notes.clear();
        self.has_start = false;
        self.has_end = false;
        assert(self.state_views() =~= Seq::empty());
        assert(self.transition_views() =~= Seq::empty());
        assert(self.note_views() =~= Seq::empty());
    }

    /// Same as `add_state`.
    pub fn add_node(&mut self, node: NodeData) -> (r: Result<(), DiagramError>)
        requires
            old(self).wf(),
        ensures
            r is Ok,
            final(self).wf(),
            final(self).state_views() == merged(old(self).state_views(), node_view(node)),
            final(self).transition_views() == old(self).transition_views(),
            final(self).note_views() == old(self).note_views(),
            final(self).start_flag() == old(self).start_flag(),
            final(self).end_flag() == old(self).end_flag(),
    {
        self.add_state(node)
    }

    /// Same as `add_transition`.
    pub fn add_edge(&mut self, edge: EdgeData) -> (r: Result<(), DiagramError>)
        requires
            old(self).wf(),
        ensures
            r is Ok,
            final(self).wf(),
            final(self).start_flag() == (old(self).start_flag() || edge.from@ == star_id()),
            final(self).end_flag() == (old(self).end_flag() || edge.to@ == star_id()),
            final(self).state_views() == ensured(
                ensured(old(self).state_views(), endpoint(edge.from@, start_id())),
                endpoint(edge.to@, end_id()),
            ),
            final(self).transition_views() == old(self).transition_views().push(
                (endpoint(edge.from@, start_id()), endpoint(edge.to@, end_id()), edge.edge_type, label_view(edge.label)),
            ),
            final(self).note_views() == old(self).note_views(),
    {
        self.add_transition(edge)
    }

    /// The state with identifier `id`.
    pub fn get_node(&self, id: &str) -> (r: Option<&NodeData>)
        ensures
            match state_pos(self.state_views(), id@) {
                Some(i) => r matches Some(n) && node_view(*n) == self.state_views()[i],
                None => r is None,
            },
    {
        proof {
            lemma_state_pos(self.state_views(), id@);
        }
        match self.position(id) {
            Some(i) => Some(&self.states[i]),
            None => None,
        }
    }

    /// Same as `states`.
    pub fn nodes(&self) -> (r: &[NodeData])
        ensures
            r@.map_values(|n: NodeData| node_view(n)) == self.state_views(),
    {
        self.states.as_slice()
    }

    /// Same as `transitions`.
    pub fn edges(&self) -> (r: &[EdgeData])
        ensures
            r@.map_values(|e: EdgeData| edge_view(e)) == self.transition_views(),
    {
        self.transitions.as_slice()
    }

    /// Same as `clear_all`.
    pub fn clear(&mut self)
        ensures
            final(self).wf(),
            final(self).state_views().len() == 0,
            final(self).transition_views().len() == 0,
            final(self).note_views().len() == 0,
            !final(self).start_flag(),
            !final(self).end_flag(),
    {
        self.clear_all()
    }

    /// Same as `state_count`.
    pub fn node_count(&self) -> (r: usize)
        ensures
            r == self.state_views().len(),
    {
        self.states.len()
    }

    /// Same as `transition_count`.
    pub fn edge_count(&self) -> (r: usize)
        ensures
            r == self.transition_views().len(),
    {
        self.transitions.len()
    }
}

/// A call that adds to a state database.
pub enum StateCall {
    AddState(NodeData),
    AddTransition(EdgeData),
    AddNote(StateNote),
}

/// Whether a call adds a transition from `[*]`.
pub open spec fn call_from_star(c: StateCall) -> bool {
    c matches StateCall::AddTransition(t) && t.from@ == star_id()
}

/// Whether a call adds a transition to `[*]`.
pub open spec fn call_to_star(c: StateCall) -> bool {
    c matches StateCall::AddTransition(t) && t.to@ == star_id()
}

/// What the contracts of `add_state`, `add_transition` and `add_note` say
/// of the database after call `c` (`b`) compared with before it (`a`): it
/// is well formed, and the start and end flags are kept, or set by a
/// transition from or to `[*]`.
pub open spec fn call_done(a: StateDatabase, b: StateDatabase, c: StateCall) -> bool {
    &&& b.wf()
    &&& match c {
        StateCall::AddTransition(t) => b.start_flag() == (a.start_flag() || t.from@ == star_id()) && b.end_flag() == (
        a.end_flag() || t.to@ == star_id()),
        _ => b.start_flag() == a.start_flag() && b.end_flag() == a.end_flag(),
    }
}

proof fn lemma_flags_prefix(dbs: Seq<StateDatabase>, calls: Seq<StateCall>, n: int)
    requires
        dbs.len() == calls.len() + 1,
        0 <= n <= calls.len(),
        !dbs[0].start_flag(),
        !dbs[0].end_flag(),
        forall|k: int| 0 <= k < calls.len() ==> call_done(dbs[k], dbs[k + 1], #[trigger] calls[k]),
    ensures
        dbs[n].start_flag() <==> exists|k: int| 0 <= k < n && #[trigger] call_from_star(calls[k]),
        dbs[n].end_flag() <==> exists|k: int| 0 <= k < n && #[trigger] call_to_star(calls[k]),
    decreases n,
{
    if n > 0 {
        lemma_flags_prefix(dbs, calls, n - 1);
        assert(call_done(dbs[n - 1], dbs[n], calls[n - 1]));
        if call_from_star(calls[n - 1]) {
            assert(dbs[n].start_flag());
        } else {
            assert(dbs[n].start_flag() == dbs[n - 1].start_flag());
        }
        if call_to_star(calls[n - 1]) {
            assert(dbs[n].end_flag());
        } else {
            assert(dbs[n].end_flag() == dbs[n - 1].end_flag());
        }
        if exists|k: int| 0 <= k < n && #[trigger] call_from_star(calls[k]) {
            let k = choose|k: int| 0 <= k < n && #[trigger] call_from_star(calls[k]);
            if k < n - 1 {
                assert(dbs[n - 1].start_flag());
            }
        }
        if exists|k: int| 0 <= k < n && #[trigger] call_to_star(calls[k]) {
            let k = choose|k: int| 0 <= k < n && #[trigger] call_to_star(calls[k]);
            if k < n - 1 {
                assert(dbs[n - 1].end_flag());
            }
        }
        if dbs[n - 1].start_flag() {
            let k = choose|k: int| 0 <= k < n - 1 && #[trigger] call_from_star(calls[k]);
            assert(0 <= k < n && call_from_star(calls[k]));
        }
        if dbs[n - 1].end_flag() {
            let k = choose|k: int| 0 <= k < n - 1 && #[trigger] call_to_star(calls[k]);
            assert(0 <= k < n && call_to_star(calls[k]));
        }
    }
}

/// Over any sequence of calls of `add_state`, `add_transition` and
/// `add_note` on a database with neither flag set (such as a new one), each
/// doing what its contract says, the start flag ends up set exactly when
/// some call added a transition from `[*]`, and then the start terminal is
/// a state; likewise the end flag, for a transition to `[*]`, and the end
/// terminal.
pub proof fn lemma_flags_over_calls(dbs: Seq<StateDatabase>, calls: Seq<StateCall>)
    requires
        dbs.len() == calls.len() + 1,
        !dbs[0].start_flag(),
        !dbs[0].end_flag(),
        forall|k: int| 0 <= k < calls.len() ==> call_done(dbs[k], dbs[k + 1], #[trigger] calls[k]),
    ensures
        dbs.last().start_flag() <==> exists|k: int| 0 <= k < calls.len() && #[trigger] call_from_star(calls[k]),
        dbs.last().end_flag() <==> exists|k: int| 0 <= k < calls.len() && #[trigger] call_to_star(calls[k]),
        dbs.last().start_flag() ==> state_pos(dbs.last().state_views(), start_id()) is Some,
        dbs.last().end_flag() ==> state_pos(dbs.last().state_views(), end_id()) is Some,
{
    let n = calls.len() as int;
    lemma_flags_prefix(dbs, calls, n);
    if n > 0 {
        assert(call_done(dbs[n - 1], dbs[n], calls[n - 1]));
    }
}

} // verus!
