//! Drawing instructions: the primitive operations that a content stream is
//! made of. Coordinates and factors are fixed-point millionths.

use vstd::prelude::*;

verus! {

/// One primitive drawing operation.
#[derive(Clone, Copy, Debug, PartialEq, Eq, Structural)]
pub enum Op {
    /// Push the graphics state.
    SaveState,
    /// Pop the graphics state.
    RestoreState,
    /// Select the shared graphics state with the given number.
    SetTransparency(u32),
    /// Set the fill colour from three components, each between zero and one.
    SetFillColor { red: i64, green: i64, blue: i64 },
    /// Begin a new sub-path at a point.
    MoveTo { x: i64, y: i64 },
    /// Extend the current sub-path by a straight line.
    LineTo { x: i64, y: i64 },
    /// Extend the current sub-path by a cubic curve: two control points, then
    /// the end point.
    CurveTo { x1: i64, y1: i64, x2: i64, y2: i64, x: i64, y: i64 },
    /// Close the current sub-path.
    ClosePath,
    /// Fill everything drawn so far, by the non-zero winding rule.
    PaintFill,
    /// Multiply the current transformation by a matrix given as six numbers.
    SetTransform { a: i64, b: i64, c: i64, d: i64, e: i64, f: i64 },
    /// Draw the reusable resource with the given number.
    DrawResource(u32),
}

/// The test for a close-path operation.
pub open spec fn is_close() -> spec_fn(Op) -> bool {
    |o: Op| o is ClosePath
}

/// The test for a move-to operation.
pub open spec fn is_move() -> spec_fn(Op) -> bool {
    |o: Op| o is MoveTo
}

/// The test for a paint-fill operation.
pub open spec fn is_fill() -> spec_fn(Op) -> bool {
    |o: Op| o is PaintFill
}

/// The test for a draw-resource operation.
pub open spec fn is_draw() -> spec_fn(Op) -> bool {
    |o: Op| o is DrawResource
}

/// How many close-path operations a sequence holds.
pub open spec fn closes(ops: Seq<Op>) -> nat {
    ops.filter(is_close()).len()
}

/// How many move-to operations a sequence holds.
pub open spec fn moves(ops: Seq<Op>) -> nat {
    ops.filter(is_move()).len()
}

/// How many paint-fill operations a sequence holds.
pub open spec fn fills(ops: Seq<Op>) -> nat {
    ops.filter(is_fill()).len()
}

/// How many draw-resource operations a sequence holds.
pub open spec fn draws(ops: Seq<Op>) -> nat {
    ops.filter(is_draw()).len()
}

/// An empty sequence holds no operation of any kind.
pub proof fn lemma_counts_empty()
    ensures
        closes(Seq::empty()) == 0,
        moves(Seq::empty()) == 0,
        fills(Seq::empty()) == 0,
        draws(Seq::empty()) == 0,
{
    reveal(Seq::filter);
}

/// One more operation adds one to the count of its kind and nothing to the
/// others.
pub proof fn lemma_counts_push(ops: Seq<Op>, op: Op)
    ensures
        closes(ops.push(op)) == closes(ops) + (if op is ClosePath { 1nat } else { 0nat }),
        moves(ops.push(op)) == moves(ops) + (if op is MoveTo { 1nat } else { 0nat }),
        fills(ops.push(op)) == fills(ops) + (if op is PaintFill { 1nat } else { 0nat }),
        draws(ops.push(op)) == draws(ops) + (if op is DrawResource { 1nat } else { 0nat }),
{
    ops.lemma_filter_len_push(is_close(), op);
    ops.lemma_filter_len_push(is_move(), op);
    ops.lemma_filter_len_push(is_fill(), op);
    ops.lemma_filter_len_push(is_draw(), op);
}

/// The counts of a concatenation are the sums of the counts of its parts.
pub proof fn lemma_counts_concat(a: Seq<Op>, b: Seq<Op>)
    ensures
        closes(a + b) == closes(a) + closes(b),
        moves(a + b) == moves(a) + moves(b),
        fills(a + b) == fills(a) + fills(b),
        draws(a + b) == draws(a) + draws(b),
{
    Seq::filter_distributes_over_add(a, b, is_close());
    Seq::filter_distributes_over_add(a, b, is_move());
    Seq::filter_distributes_over_add(a, b, is_fill());
    Seq::filter_distributes_over_add(a, b, is_draw());
}

/// Where a drawing program stands between two operations: how many graphics
/// states are saved, and whether a contour is begun and not yet closed.
pub struct Progress {
    pub saved: nat,
    pub open: bool,
}

/// Where a program stands before its first operation and where a sound
/// program stands after its last: nothing saved, no contour open.
pub open spec fn at_rest() -> Progress {
    Progress { saved: 0, open: false }
}

/// One operation further, or `None` where the operation is out of place: a
/// contour is begun while another is open, a line or a curve is drawn or a
/// contour is closed while none is open, anything but path construction is
/// done while a contour is open, or a state is restored that was not saved.
pub open spec fn advance(p: Progress, op: Op) -> Option<Progress> {
    match op {
        Op::MoveTo { .. } => if p.open {
            None
        } else {
            Some(Progress { saved: p.saved, open: true })
        },
        Op::LineTo { .. } => if p.open {
            Some(p)
        } else {
            None
        },
        Op::CurveTo { .. } => if p.open {
            Some(p)
        } else {
            None
        },
        Op::ClosePath => if p.open {
            Some(Progress { saved: p.saved, open: false })
        } else {
            None
        },
        Op::SaveState => if p.open {
            None
        } else {
            Some(Progress { saved: p.saved + 1, open: false })
        },
        Op::RestoreState => if p.open || p.saved == 0 {
            None
        } else {
            Some(Progress { saved: (p.saved - 1) as nat, open: false })
        },
        _ => if p.open {
            None
        } else {
            Some(p)
        },
    }
}

/// Where a program stands after all of its operations, started from `p`.
pub open spec fn run(p: Option<Progress>, ops: Seq<Op>) -> Option<Progress>
    decreases ops.len(),
{
    if ops.len() == 0 {
        p
    } else {
        match run(p, ops.drop_last()) {
            Some(q) => advance(q, ops.last()),
            None => None,
        }
    }
}

/// Whether a program is sound: no operation is out of place, every contour
/// is closed before the next one begins and before anything is painted, and
/// every saved state is restored.
pub open spec fn sound(ops: Seq<Op>) -> bool {
    run(Some(at_rest()), ops) == Some(at_rest())
}

/// Running two programs one after the other is running their concatenation.
pub proof fn lemma_run_concat(p: Option<Progress>, a: Seq<Op>, b: Seq<Op>)
    ensures
        run(p, a + b) == run(run(p, a), b),
    decreases b.len(),
{
    if b.len() == 0 {
    } else {
        assert((a + b).drop_last() =~= a + b.drop_last());
        lemma_run_concat(p, a, b.drop_last());
    }
}

/// Running one more operation is advancing by it.
pub proof fn lemma_run_push(p: Option<Progress>, a: Seq<Op>, op: Op)
    ensures
        run(p, a.push(op)) == (match run(p, a) {
            Some(q) => advance(q, op),
            None => None,
        }),
{
    assert(a.push(op).drop_last() =~= a);
}

/// Two sound programs one after the other are a sound program.
pub proof fn lemma_sound_concat(a: Seq<Op>, b: Seq<Op>)
    requires
        sound(a),
        sound(b),
    ensures
        sound(a + b),
{
    lemma_run_concat(Some(at_rest()), a, b);
}

} // verus!
