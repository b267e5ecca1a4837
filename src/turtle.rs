//! The turtle interpreter. Poses are kept as a table in which each pose is an
//! earlier pose plus one move, so that the geometry can be evaluated elsewhere.

use vstd::prelude::*;

use crate::action::{Action, Direction};

verus! {

/// One step that derives a new pose from an earlier one.
#[derive(Clone, Copy, Debug, PartialEq, Eq, Structural)]
pub enum Move {
    /// Advance one segment along the local forward axis.
    Forward,
    /// Turn by the configured angle about the axis of the direction.
    Turn(Direction),
}

/// A pose given by the pose it starts from and the move applied to it.
/// Pose 0 is the origin with the identity orientation; the pose table's
/// entry `k` defines pose `k + 1`.
#[derive(Clone, Copy, Debug, PartialEq, Eq, Structural)]
pub struct Pose {
    pub base: usize,
    pub step: Move,
}

/// An output vertex: the position of a pose, or a break between line strips.
#[derive(Clone, Copy, Debug, PartialEq, Eq, Structural)]
pub enum Vertex {
    Point(usize),
    Break,
}

/// The result of an interpretation: the pose table and the vertices.
pub struct Trace {
    pub poses: Vec<Pose>,
    pub verts: Vec<Vertex>,
}

/// The state of the turtle in the middle of an interpretation.
pub struct TurtleModel {
    pub cursor: usize,
    pub stack: Seq<usize>,
    pub poses: Seq<Pose>,
    pub verts: Seq<Vertex>,
}

/// The turtle before any action: at the origin, with nothing saved.
pub open spec fn initial_model() -> TurtleModel {
    TurtleModel { cursor: 0, stack: Seq::empty(), poses: Seq::empty(), verts: Seq::empty() }
}

/// The turtle after a new pose derived from the cursor by `mv`; the cursor moves to it.
pub open spec fn advance(m: TurtleModel, mv: Move) -> TurtleModel {
    let poses = m.poses.push(Pose { base: m.cursor, step: mv });
    TurtleModel { cursor: poses.len() as usize, poses: poses, ..m }
}

/// The effect of one action on the turtle.
pub open spec fn turtle_step(m: TurtleModel, a: Action) -> TurtleModel {
    match a {
        Action::Nothing => TurtleModel { verts: m.verts.push(Vertex::Point(m.cursor)), ..m },
        Action::Forwards => {
            let n = advance(m, Move::Forward);
            TurtleModel { verts: n.verts.push(Vertex::Point(n.cursor)), ..n }
        },
        Action::Rotate(d) => advance(m, Move::Turn(d)),
        Action::Push => TurtleModel { stack: m.stack.push(m.cursor), ..m },
        Action::Pop => if m.stack.len() > 0 {
            let c = m.stack.last();
            TurtleModel {
                cursor: c,
                stack: m.stack.drop_last(),
                verts: m.verts.push(Vertex::Break).push(Vertex::Point(c)),
                ..m
            }
        } else {
            m
        },
    }
}

/// The turtle after the actions `s`, started in `m`.
pub open spec fn run_from(m: TurtleModel, s: Seq<Action>) -> TurtleModel
    decreases s.len(),
{
    if s.len() == 0 {
        m
    } else {
        turtle_step(run_from(m, s.drop_last()), s.last())
    }
}

/// The turtle after interpreting `s` from the start.
pub open spec fn turtle_run(s: Seq<Action>) -> TurtleModel {
    run_from(initial_model(), s)
}

/// Every pose is derived from an earlier one, and every point names a pose
/// of the table (pose 0 being the origin).
pub open spec fn trace_wf(poses: Seq<Pose>, verts: Seq<Vertex>) -> bool {
    &&& forall|i: int| 0 <= i < poses.len() ==> (#[trigger] poses[i]).base <= i
    &&& forall|i: int|
        0 <= i < verts.len() ==> (#[trigger] verts[i] matches Vertex::Point(p) ==> p
            <= poses.len())
}

/// The trace is well formed, and the cursor and the saved cursors name
/// poses of the table.
pub open spec fn model_wf(m: TurtleModel) -> bool {
    &&& trace_wf(m.poses, m.verts)
    &&& m.cursor <= m.poses.len()
    &&& forall|i: int| 0 <= i < m.stack.len() ==> #[trigger] m.stack[i] <= m.poses.len()
}

/// Interpretation keeps the pose table and the vertices well formed.
pub proof fn lemma_run_wf(m: TurtleModel, s: Seq<Action>)
    requires
        model_wf(m),
    ensures
        model_wf(run_from(m, s)),
    decreases s.len(),
{
    if s.len() > 0 {
        lemma_run_wf(m, s.drop_last());
        let q = run_from(m, s.drop_last());
        let r = run_from(m, s);
        assert forall|i: int| 0 <= i < r.poses.len() implies (#[trigger] r.poses[i]).base <= i by {
            if i < q.poses.len() {
                assert(r.poses[i] == q.poses[i]);
            }
        }
        assert forall|i: int| 0 <= i < r.verts.len() implies (#[trigger] r.verts[i]
            matches Vertex::Point(p) ==> p <= r.poses.len()) by {
            if i < q.verts.len() {
                assert(r.verts[i] == q.verts[i]);
            } else if s.last() == Action::Pop && i == q.verts.len() + 1 {
                assert(q.stack[q.stack.len() - 1] <= q.poses.len());
            }
        }
        assert forall|i: int| 0 <= i < r.stack.len() implies #[trigger] r.stack[i]
            <= r.poses.len() by {
            if i < q.stack.len() {
                assert(r.stack[i] == q.stack[i]);
            }
        }
    }
}

/// How many more `Push` than `Pop` actions `s` holds.
pub open spec fn depth(s: Seq<Action>) -> int
    decreases s.len(),
{
    if s.len() == 0 {
        0
    } else {
        depth(s.drop_last()) + match s.last() {
            Action::Push => 1int,
            Action::Pop => -1int,
            _ => 0int,
        }
    }
}

/// No prefix of `s` pops more than it pushes.
pub open spec fn nested(s: Seq<Action>) -> bool {
    forall|i: int| 0 <= i <= s.len() ==> depth(#[trigger] s.take(i)) >= 0
}

/// Pushes and pops of `s` are equal in number and properly nested.
pub open spec fn balanced(s: Seq<Action>) -> bool {
    nested(s) && depth(s) == 0
}

/// The number of `Pop` actions in `s`.
pub open spec fn count_pops(s: Seq<Action>) -> nat
    decreases s.len(),
{
    if s.len() == 0 {
        0
    } else {
        count_pops(s.drop_last()) + if s.last() == Action::Pop { 1nat } else { 0nat }
    }
}

/// The number of breaks in `v`.
pub open spec fn count_breaks(v: Seq<Vertex>) -> nat
    decreases v.len(),
{
    if v.len() == 0 {
        0
    } else {
        count_breaks(v.drop_last()) + if v.last() == Vertex::Break { 1nat } else { 0nat }
    }
}

/// Running two action sequences one after the other is running their concatenation.
pub proof fn lemma_run_concat(m: TurtleModel, a: Seq<Action>, b: Seq<Action>)
    ensures
        run_from(m, a + b) == run_from(run_from(m, a), b),
    decreases b.len(),
{
    if b.len() == 0 {
        assert(a + b == a);
    } else {
        assert((a + b).drop_last() == a + b.drop_last());
        lemma_run_concat(m, a, b.drop_last());
    }
}

proof fn lemma_run_single(m: TurtleModel, a: Action)
    ensures
        run_from(m, seq![a]) == turtle_step(m, a),
{
    let s = seq![a];
    assert(s.drop_last() =~= Seq::<Action>::empty());
    assert(run_from(m, s.drop_last()) == m);
    assert(s.last() == a);
}

proof fn lemma_breaks_push(v: Seq<Vertex>, x: Vertex)
    ensures
        count_breaks(v.push(x)) == count_breaks(v) + if x == Vertex::Break { 1nat } else { 0nat },
{
    assert(v.push(x).drop_last() == v);
}

/// Along properly nested actions every `Pop` finds a saved cursor: it emits
/// exactly one break, the stack grows by the depth, and the cursors saved
/// before stay untouched.
pub proof fn lemma_nested_pops_break(m: TurtleModel, s: Seq<Action>)
    requires
        nested(s),
    ensures
        run_from(m, s).stack.len() == m.stack.len() + depth(s),
        run_from(m, s).stack.take(m.stack.len() as int) == m.stack,
        count_breaks(run_from(m, s).verts) == count_breaks(m.verts) + count_pops(s),
    decreases s.len(),
{
    if s.len() == 0 {
        assert(m.stack.take(m.stack.len() as int) == m.stack);
    } else {
        let p = s.drop_last();
        assert forall|i: int| 0 <= i <= p.len() implies depth(#[trigger] p.take(i)) >= 0 by {
            assert(p.take(i) == s.take(i));
        }
        lemma_nested_pops_break(m, p);
        assert(s.take(s.len() as int) == s);
        let q = run_from(m, p);
        let k = m.stack.len() as int;
        match s.last() {
            Action::Nothing => {
                lemma_breaks_push(q.verts, Vertex::Point(q.cursor));
            },
            Action::Forwards => {
                let n = advance(q, Move::Forward);
                lemma_breaks_push(q.verts, Vertex::Point(n.cursor));
            },
            Action::Rotate(d) => {},
            Action::Push => {
                assert(q.stack.push(q.cursor).take(k) == q.stack.take(k));
            },
            Action::Pop => {
                assert(q.stack.drop_last().take(k) == q.stack.take(k));
                lemma_breaks_push(q.verts, Vertex::Break);
                lemma_breaks_push(q.verts.push(Vertex::Break), Vertex::Point(q.stack.last()));
            },
        }
    }
}

/// A `Pop` that closes a `Push` around balanced actions returns the cursor to
/// the pose it had before the `Push`, restores the stack, and ends with one
/// break followed by the point of that pose.
pub proof fn lemma_branch_restores(m: TurtleModel, body: Seq<Action>)
    requires
        balanced(body),
    ensures
        ({
            let r = run_from(m, seq![Action::Push] + body + seq![Action::Pop]);
            &&& r.cursor == m.cursor
            &&& r.stack == m.stack
            &&& r.verts.len() >= 2
            &&& r.verts[r.verts.len() - 2] == Vertex::Break
            &&& r.verts.last() == Vertex::Point(m.cursor)
            &&& count_breaks(r.verts) == count_breaks(m.verts) + count_pops(body) + 1
        }),
{
    let open = seq![Action::Push];
    let close = seq![Action::Pop];
    lemma_run_concat(m, open + body, close);
    lemma_run_concat(m, open, body);
    lemma_run_single(m, Action::Push);
    let m1 = run_from(m, open);
    lemma_nested_pops_break(m1, body);
    let m2 = run_from(m1, body);
    assert(m2.stack =~= m.stack.push(m.cursor)) by {
        assert(m2.stack.take(m1.stack.len() as int) == m2.stack);
    }
    assert(m.stack.push(m.cursor).drop_last() == m.stack);
    lemma_run_single(m2, Action::Pop);
    lemma_breaks_push(m2.verts, Vertex::Break);
    lemma_breaks_push(m2.verts.push(Vertex::Break), Vertex::Point(m.cursor));
}

/// A `Pop` before any `Push` emits nothing and leaves the turtle where it
/// was: interpreting it first changes nothing that follows.
pub proof fn lemma_leading_pop_ignored(s: Seq<Action>)
    ensures
        turtle_run(seq![Action::Pop]) == initial_model(),
        turtle_run(seq![Action::Pop] + s) == turtle_run(s),
{
    let close = seq![Action::Pop];
    lemma_run_single(initial_model(), Action::Pop);
    lemma_run_concat(initial_model(), close, s);
}


/// The cursor and the saved cursors of an interpretation in progress.
pub struct RenderState {
    pub cursor: usize,
    pub states: Vec<usize>,
}

impl RenderState {
    pub open spec fn saved(&self) -> Seq<usize> {
        self.states@
    }

    pub fn new() -> (r: RenderState)
        ensures
            r.cursor == 0,
            r.saved() == Seq::<usize>::empty(),
    {
        RenderState { cursor: 0, states: Vec::new() }
    }

    /// Saves a cursor on top of the stack.
    pub fn push(&mut self, pose: usize)
        ensures
            final(self).saved() == old(self).saved().push(pose),
            final(self).cursor == old(self).cursor,
    {
        self.states.push(pose);
    }

    /// Takes the most recently saved cursor off the stack, if any.
    pub fn pop(&mut self) -> (r: Option<usize>)
        ensures
            final(self).cursor == old(self).cursor,
            old(self).saved().len() == 0 ==> r is None && final(self).saved() == old(self).saved(),
            old(self).saved().len() > 0 ==> r == Some(old(self).saved().last())
                && final(self).saved() == old(self).saved().drop_last(),
    {
        self.states.pop()
    }
}

impl Default for RenderState {
    fn default() -> (r: RenderState)
        ensures
            r.cursor == 0,
            r.saved() == Seq::<usize>::empty(),
    {
        RenderState::new()
    }
}

/// Figures of the last interpretation of a plant.
pub struct PlantStatsComponent {
    pub vert_count: usize,
}

impl Default for PlantStatsComponent {
    fn default() -> (r: PlantStatsComponent)
        ensures
            r.vert_count == 0,
    {
        PlantStatsComponent { vert_count: 0 }
    }
}

/// Turns action sequences into pose tables and vertex lists.
pub struct PlantRendererComponent {
    pub state: RenderState,
}

impl PlantRendererComponent {
    pub fn new() -> (r: PlantRendererComponent)
        ensures
            r.state.cursor == 0,
            r.state.saved() == Seq::<usize>::empty(),
    {
        PlantRendererComponent { state: RenderState::new() }
    }

    /// Interprets `actions` from the origin with an empty stack.
    ///
    /// `Nothing` emits the cursor's point; `Forwards` derives a pose one
    /// segment ahead, moves there and emits it; `Rotate` derives a turned
    /// pose and moves there; `Push` saves the cursor; `Pop` restores the last
    /// saved cursor and emits a break followed by its point, or does nothing
    /// when no cursor is saved.
    pub fn generate_verts(&mut self, actions: &[Action]) -> (r: Trace)
        ensures
            r.poses@ == turtle_run(actions@).poses,
            r.verts@ == turtle_run(actions@).verts,
            trace_wf(r.poses@, r.verts@),
            final(self).state.cursor == turtle_run(actions@).cursor,
            final(self).state.saved() == turtle_run(actions@).stack,
    {
        self.state = RenderState::new();
        let mut poses: Vec<Pose> = Vec::new();
        let mut verts: Vec<Vertex> = Vec::new();
        let mut i: usize = 0;
        while i < actions.len()
            invariant
                0 <= i <= actions@.len(),
                ({
                    let m = turtle_run(actions@.take(i as int));
                    &&& self.state.cursor == m.cursor
                    &&& self.state.saved() == m.stack
                    &&& poses@ == m.poses
                    &&& verts@ == m.verts
                }),
            decreases actions@.len() - i,
        {
            proof {
                assert(actions@.take(i + 1).drop_last() == actions@.take(i as int));
            }
            let cursor = self.state.cursor;
            match actions[i] {
                Action::Nothing => {
                    verts.push(Vertex::Point(cursor));
                },
                Action::Forwards => {
                    poses.push(Pose { base: cursor, step: Move::Forward });
                    self.state.cursor = poses.len();
                    verts.push(Vertex::Point(self.state.cursor));
                },
                Action::Rotate(d) => {
                    poses.push(Pose { base: cursor, step: Move::Turn(d) });
                    self.state.cursor = poses.len();
                },
                Action::Push => {
                    self.state.push(cursor);
                },
                Action::Pop => {
                    match self.state.pop() {
                        Some(c) => {
                            self.state.cursor = c;
                            verts.push(Vertex::Break);
                            verts.push(Vertex::Point(c));
                        },
                        None => {},
                    }
                },
            }
            i = i + 1;
        }
        proof {
            assert(actions@.take(i as int) == actions@);
            lemma_run_wf(initial_model(), actions@);
        }
        Trace { poses, verts }
    }
}

impl Default for PlantRendererComponent {
    fn default() -> (r: PlantRendererComponent)
        ensures
            r.state.cursor == 0,
            r.state.saved() == Seq::<usize>::empty(),
    {
        PlantRendererComponent::new()
    }
}

} // verus!
