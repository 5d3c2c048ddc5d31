//! The glyph vectorizer: a line of text, given as the glyphs of its
//! characters, becomes one self-contained drawing program.

use vstd::prelude::*;
use crate::instruction::{
    Op,
    Progress,
    at_rest,
    closes,
    fills,
    lemma_counts_concat,
    lemma_counts_empty,
    lemma_counts_push,
    lemma_run_concat,
    lemma_run_push,
    moves,
    run,
    sound,
};
use crate::outline::{
    FontScale,
    Glyph,
    Point,
    Segment,
    contours,
    opens_contour,
    previous_end,
    starts_contour,
};
use crate::units::{EXTENT_LIMIT, clamp, floor_div, lemma_floor_div_bounds, saturate, scale, scaled};

verus! {

/// The grey level of the fill, on all three colour components: one tenth.
pub const FILL_GRAY: i64 = 100_000;

/// The number of the shared low-alpha graphics state.
pub const TRANSPARENCY_STATE: u32 = 1;

/// Where the design coordinate `v` lands, counted from `base`.
pub open spec fn placed(base: int, v: int, size: int, height: int) -> i64 {
    clamp(base + scaled(v, size, height)) as i64
}

/// Where a design coordinate lands that is given as three times its value.
pub open spec fn placed_thirds(base: int, thirds: int, size: int, height: int) -> i64 {
    clamp(base + scaled(thirds, size, 3 * height)) as i64
}

/// Three times the cubic control point that stands for the quadratic control
/// point `mid` next to the end point `end`: `end + 2/3 * (mid - end)`, tripled.
pub open spec fn control_thirds(end: int, mid: int) -> int {
    end + 2 * mid
}

/// The horizontal pen position before glyph `n`: the origin moved by the scaled
/// advance of every glyph before it, saturating.
pub open spec fn pen_position(glyphs: Seq<Glyph>, n: nat, origin_x: int, s: FontScale) -> int
    decreases n,
{
    if n == 0 {
        origin_x
    } else {
        clamp(
            pen_position(glyphs, (n - 1) as nat, origin_x, s) + scaled(
                glyphs[n - 1].advance as int,
                s.h_size as int,
                s.height as int,
            ),
        )
    }
}

/// The operation that draws one segment, its start point left aside.
pub open spec fn draw(seg: Segment, pen: int, base: int, s: FontScale) -> Op {
    let h = s.h_size as int;
    let v = s.v_size as int;
    let d = s.height as int;
    match seg {
        Segment::Line(_, p1) => Op::LineTo {
            x: placed(pen, p1.x as int, h, d),
            y: placed(base, p1.y as int, v, d),
        },
        Segment::Quad(p0, p1, p2) => Op::CurveTo {
            x1: placed_thirds(pen, control_thirds(p0.x as int, p1.x as int), h, d),
            y1: placed_thirds(base, control_thirds(p0.y as int, p1.y as int), v, d),
            x2: placed_thirds(pen, control_thirds(p2.x as int, p1.x as int), h, d),
            y2: placed_thirds(base, control_thirds(p2.y as int, p1.y as int), v, d),
            x: placed(pen, p2.x as int, h, d),
            y: placed(base, p2.y as int, v, d),
        },
        Segment::Cubic(_, p1, p2, p3) => Op::CurveTo {
            x1: placed(pen, p1.x as int, h, d),
            y1: placed(base, p1.y as int, v, d),
            x2: placed(pen, p2.x as int, h, d),
            y2: placed(base, p2.y as int, v, d),
            x: placed(pen, p3.x as int, h, d),
            y: placed(base, p3.y as int, v, d),
        },
    }
}

/// What a segment that opens a contour puts before its own operation: the
/// close of the contour before it, if there was one, and a move to its start.
pub open spec fn contour_lead(previous: Option<Point>, start: Point, pen: int, base: int, s: FontScale) -> Seq<Op> {
    let to_start = Op::MoveTo {
        x: placed(pen, start.x as int, s.h_size as int, s.height as int),
        y: placed(base, start.y as int, s.v_size as int, s.height as int),
    };
    if previous is Some {
        seq![Op::ClosePath, to_start]
    } else {
        seq![to_start]
    }
}

/// The operations of one segment, given where the segment before it ended.
pub open spec fn segment_ops(previous: Option<Point>, seg: Segment, pen: int, base: int, s: FontScale) -> Seq<Op> {
    if starts_contour(previous, seg.start()) {
        contour_lead(previous, seg.start(), pen, base, s).push(draw(seg, pen, base, s))
    } else {
        seq![draw(seg, pen, base, s)]
    }
}

/// The operations of the first `n` segments of an outline.
pub open spec fn outline_ops(segments: Seq<Segment>, n: nat, pen: int, base: int, s: FontScale) -> Seq<Op>
    decreases n,
{
    if n == 0 {
        Seq::empty()
    } else {
        outline_ops(segments, (n - 1) as nat, pen, base, s) + segment_ops(
            previous_end(segments, n - 1),
            segments[n - 1],
            pen,
            base,
            s,
        )
    }
}

/// The whole path of one glyph: its segments, and the close of its last
/// contour. A glyph without segments has no path.
pub open spec fn glyph_ops(segments: Seq<Segment>, pen: int, base: int, s: FontScale) -> Seq<Op> {
    if segments.len() == 0 {
        Seq::empty()
    } else {
        outline_ops(segments, segments.len(), pen, base, s).push(Op::ClosePath)
    }
}

/// The paths of the first `n` glyphs, each at its pen position.
pub open spec fn text_ops(glyphs: Seq<Glyph>, n: nat, origin_x: int, origin_y: int, s: FontScale) -> Seq<Op>
    decreases n,
{
    if n == 0 {
        Seq::empty()
    } else {
        text_ops(glyphs, (n - 1) as nat, origin_x, origin_y, s) + glyph_ops(
            glyphs[n - 1].segments(),
            pen_position(glyphs, (n - 1) as nat, origin_x, s),
            origin_y,
            s,
        )
    }
}

/// What stands before the paths: save the state, select the transparency
/// state, set the fill colour.
pub open spec fn prologue() -> Seq<Op> {
    seq![
        Op::SaveState,
        Op::SetTransparency(TRANSPARENCY_STATE),
        Op::SetFillColor { red: FILL_GRAY, green: FILL_GRAY, blue: FILL_GRAY },
    ]
}

/// What stands after the paths: one fill for all of them, and the restore.
pub open spec fn epilogue() -> Seq<Op> {
    seq![Op::PaintFill, Op::RestoreState]
}

/// The drawing program of a line of text.
pub open spec fn vectorized(glyphs: Seq<Glyph>, origin_x: int, origin_y: int, s: FontScale) -> Seq<Op> {
    prologue() + text_ops(glyphs, glyphs.len(), origin_x, origin_y, s) + epilogue()
}

/// The width of a line of text: where the pen ends when it starts at zero.
pub open spec fn text_width(glyphs: Seq<Glyph>, s: FontScale) -> int {
    pen_position(glyphs, glyphs.len(), 0, s)
}

/// Places a design coordinate on the page.
fn place(base: i64, v: i64, size: i64, height: i64) -> (r: i64)
    requires
        height > 0,
    ensures
        r == placed(base as int, v as int, size as int, height as int),
{
    let moved: i128 = scale(v, size, height);
    saturate(base as i128 + moved)
}

/// Places the cubic control point that stands for the quadratic control point
/// `mid` next to the end point `end`.
fn place_control(base: i64, end: i64, mid: i64, size: i64, height: i64) -> (r: i64)
    requires
        0 < size <= EXTENT_LIMIT,
        0 < height <= EXTENT_LIMIT,
    ensures
        r == placed_thirds(
            base as int,
            control_thirds(end as int, mid as int),
            size as int,
            height as int,
        ),
{
    let thirds: i128 = end as i128 + 2 * (mid as i128);
    assert(-0x2000_0000_0000_0000_0000_0000_0000_0000 <= (thirds as int) * (size as int)
        <= 0x2000_0000_0000_0000_0000_0000_0000_0000) by (nonlinear_arith)
        requires
            -0x2_0000_0000_0000_0000 <= thirds as int <= 0x2_0000_0000_0000_0000,
            0 < size as int <= 0x10_0000_0000_0000,
    ;
    let product: i128 = thirds * (size as i128);
    let moved: i128 = floor_div(product, 3 * (height as i128));
    proof {
        lemma_floor_div_bounds(product as int, 3 * (height as int));
    }
    saturate(base as i128 + moved)
}

/// The operation that draws one segment.
fn draw_segment(seg: &Segment, pen: i64, base: i64, s: FontScale) -> (op: Op)
    requires
        s.wf(),
    ensures
        op == draw(*seg, pen as int, base as int, s),
{
    match seg {
        Segment::Line(_, p1) => Op::LineTo {
            x: place(pen, p1.x, s.h_size, s.height),
            y: place(base, p1.y, s.v_size, s.height),
        },
        Segment::Quad(p0, p1, p2) => Op::CurveTo {
            x1: place_control(pen, p0.x, p1.x, s.h_size, s.height),
            y1: place_control(base, p0.y, p1.y, s.v_size, s.height),
            x2: place_control(pen, p2.x, p1.x, s.h_size, s.height),
            y2: place_control(base, p2.y, p1.y, s.v_size, s.height),
            x: place(pen, p2.x, s.h_size, s.height),
            y: place(base, p2.y, s.v_size, s.height),
        },
        Segment::Cubic(_, p1, p2, p3) => Op::CurveTo {
            x1: place(pen, p1.x, s.h_size, s.height),
            y1: place(base, p1.y, s.v_size, s.height),
            x2: place(pen, p2.x, s.h_size, s.height),
            y2: place(base, p2.y, s.v_size, s.height),
            x: place(pen, p3.x, s.h_size, s.height),
            y: place(base, p3.y, s.v_size, s.height),
        },
    }
}

/// Appends the path of one glyph, drawn with the pen at `pen`.
pub fn append_glyph_path(ops: &mut Vec<Op>, segments: &Vec<Segment>, pen: i64, origin_y: i64, s: FontScale)
    requires
        s.wf(),
    ensures
        final(ops)@ == old(ops)@ + glyph_ops(segments@, pen as int, origin_y as int, s),
{
    let ghost before = ops@;
    let mut last: Option<Point> = None;
    let mut j: usize = 0;
    while j < segments.len()
        invariant
            j <= segments.len(),
            s.wf(),
            last == previous_end(segments@, j as int),
            ops@ == before + outline_ops(segments@, j as nat, pen as int, origin_y as int, s),
        decreases segments.len() - j,
    {
        let seg = &segments[j];
        let start = seg.start_point();
        if opens_contour(last, start) {
            if last.is_some() {
                ops.push(Op::ClosePath);
            }
            ops.push(
                Op::MoveTo {
                    x: place(pen, start.x, s.h_size, s.height),
                    y: place(origin_y, start.y, s.v_size, s.height),
                },
            );
        }
        ops.push(draw_segment(seg, pen, origin_y, s));
        last = Some(seg.end_point());
        j += 1;
    }
    if last.is_some() {
        ops.push(Op::ClosePath);
    }
}

/// Turns a line of text into its drawing program: the state is saved, the
/// transparency state and the fill colour are set, every glyph's contours are
/// drawn and closed at its pen position, one fill paints them all, and the
/// state is restored. A glyph without an outline draws nothing and still moves
/// the pen.
pub fn vectorize(glyphs: &Vec<Glyph>, origin_x: i64, origin_y: i64, s: FontScale) -> (ops: Vec<Op>)
    requires
        s.wf(),
    ensures
        ops@ == vectorized(glyphs@, origin_x as int, origin_y as int, s),
        sound(ops@),
        fills(ops@) == 1,
        moves(ops@) == closes(ops@) == total_contours(glyphs@, glyphs@.len()),
{
    let mut ops: Vec<Op> = Vec::new();
    ops.push(Op::SaveState);
    ops.push(Op::SetTransparency(TRANSPARENCY_STATE));
    ops.push(Op::SetFillColor { red: FILL_GRAY, green: FILL_GRAY, blue: FILL_GRAY });
    let mut pen: i64 = origin_x;
    let mut i: usize = 0;
    while i < glyphs.len()
        invariant
            i <= glyphs.len(),
            s.wf(),
            pen as int == pen_position(glyphs@, i as nat, origin_x as int, s),
            ops@ == prologue() + text_ops(glyphs@, i as nat, origin_x as int, origin_y as int, s),
        decreases glyphs.len() - i,
    {
        let glyph = &glyphs[i];
        match &glyph.outline {
            Some(segments) => {
                append_glyph_path(&mut ops, segments, pen, origin_y, s);
            },
            None => {},
        }
        proof {
            assert(ops@ =~= prologue() + text_ops(
                glyphs@,
                (i + 1) as nat,
                origin_x as int,
                origin_y as int,
                s,
            ));
        }
        let moved: i128 = scale(glyph.advance, s.h_size, s.height);
        pen = saturate(pen as i128 + moved);
        i += 1;
    }
    ops.push(Op::PaintFill);
    ops.push(Op::RestoreState);
    proof {
        assert(ops@ =~= vectorized(glyphs@, origin_x as int, origin_y as int, s));
        lemma_program_sound(glyphs@, origin_x as int, origin_y as int, s);
        lemma_program_counts(glyphs@, origin_x as int, origin_y as int, s);
    }
    ops
}

/// Measures a line of text: the sum of the scaled advances of its glyphs, the
/// same advances by which the vectorizer moves its pen.
pub fn measure_width(glyphs: &Vec<Glyph>, s: FontScale) -> (width: i64)
    requires
        s.wf(),
    ensures
        width as int == text_width(glyphs@, s),
{
    let mut pen: i64 = 0;
    let mut i: usize = 0;
    while i < glyphs.len()
        invariant
            i <= glyphs.len(),
            s.wf(),
            pen as int == pen_position(glyphs@, i as nat, 0, s),
        decreases glyphs.len() - i,
    {
        let moved: i128 = scale(glyphs[i].advance, s.h_size, s.height);
        pen = saturate(pen as i128 + moved);
        i += 1;
    }
    pen
}

/// The sum of the scaled advances of the first `n` glyphs, without saturation.
pub open spec fn advance_sum(glyphs: Seq<Glyph>, n: nat, s: FontScale) -> int
    decreases n,
{
    if n == 0 {
        0
    } else {
        advance_sum(glyphs, (n - 1) as nat, s) + scaled(
            glyphs[n - 1].advance as int,
            s.h_size as int,
            s.height as int,
        )
    }
}

/// How many contours the first `n` glyphs have between them.
pub open spec fn total_contours(glyphs: Seq<Glyph>, n: nat) -> nat
    decreases n,
{
    if n == 0 {
        0
    } else {
        total_contours(glyphs, (n - 1) as nat) + contours(
            glyphs[n - 1].segments(),
            glyphs[n - 1].segments().len(),
        )
    }
}

/// The value of a quadratic curve at the parameter `a / b`, multiplied by
/// `b * b`, on one axis.
pub open spec fn quadratic_at(p0: int, p1: int, p2: int, a: int, b: int) -> int {
    let c = b - a;
    (c * c) * p0 + 2 * ((a * c) * p1) + (a * a) * p2
}

/// The value of a cubic curve at the parameter `a / b`, multiplied by
/// `3 * b * b * b`, on one axis. The two inner control points are given tripled.
pub open spec fn cubic_at(p0: int, c1_thirds: int, c2_thirds: int, p3: int, a: int, b: int) -> int {
    let c = b - a;
    3 * ((c * c * c) * p0) + 3 * ((a * c * c) * c1_thirds) + 3 * ((a * a * c) * c2_thirds) + 3 * ((a
        * a * a) * p3)
}

/// The pen stands at the origin plus the plain sum of the scaled advances of
/// the glyphs before it, as long as no position on the way leaves the range
/// of the coordinates. From the origin zero, this is the width of the text.
pub proof fn lemma_pen_is_advance_sum(glyphs: Seq<Glyph>, n: nat, origin_x: int, s: FontScale)
    requires
        n <= glyphs.len(),
        forall|k: nat|
            k <= n ==> i64::MIN <= origin_x + #[trigger] advance_sum(glyphs, k, s) <= i64::MAX,
    ensures
        pen_position(glyphs, n, origin_x, s) == origin_x + advance_sum(glyphs, n, s),
    decreases n,
{
    if n > 0 {
        lemma_pen_is_advance_sum(glyphs, (n - 1) as nat, origin_x, s);
    }
}

/// The width of a line of text depends on the advances of its glyphs alone:
/// whether a glyph has an outline, and what it looks like, changes nothing.
pub proof fn lemma_width_ignores_outlines(a: Seq<Glyph>, b: Seq<Glyph>, n: nat, origin_x: int, s: FontScale)
    requires
        n <= a.len(),
        n <= b.len(),
        forall|i: int| 0 <= i < n ==> a[i].advance == b[i].advance,
    ensures
        pen_position(a, n, origin_x, s) == pen_position(b, n, origin_x, s),
    decreases n,
{
    if n > 0 {
        lemma_width_ignores_outlines(a, b, (n - 1) as nat, origin_x, s);
    }
}

/// The operation that draws a segment neither opens nor closes a contour, and
/// paints nothing.
proof fn lemma_draw_counts(seg: Segment, pen: int, base: int, s: FontScale)
    ensures
        !(draw(seg, pen, base, s) is ClosePath),
        !(draw(seg, pen, base, s) is MoveTo),
        !(draw(seg, pen, base, s) is PaintFill),
{
}

/// Counts over the first `n` segments of an outline: one move-to for each
/// contour opened, one close-path for each but the last, no fill.
proof fn lemma_outline_counts(segments: Seq<Segment>, n: nat, pen: int, base: int, s: FontScale)
    requires
        n <= segments.len(),
    ensures
        moves(outline_ops(segments, n, pen, base, s)) == contours(segments, n),
        closes(outline_ops(segments, n, pen, base, s)) + (if n > 0 { 1nat } else { 0nat })
            == contours(segments, n),
        fills(outline_ops(segments, n, pen, base, s)) == 0,
    decreases n,
{
    lemma_counts_empty();
    if n > 0 {
        let m = (n - 1) as nat;
        lemma_outline_counts(segments, m, pen, base, s);
        let before = outline_ops(segments, m, pen, base, s);
        let previous = previous_end(segments, m as int);
        let seg = segments[m as int];
        let own = segment_ops(previous, seg, pen, base, s);
        let stroke = draw(seg, pen, base, s);
        lemma_draw_counts(seg, pen, base, s);
        lemma_counts_concat(before, own);
        if starts_contour(previous, seg.start()) {
            let lead = contour_lead(previous, seg.start(), pen, base, s);
            let to_start = Op::MoveTo {
                x: placed(pen, seg.start().x as int, s.h_size as int, s.height as int),
                y: placed(base, seg.start().y as int, s.v_size as int, s.height as int),
            };
            if previous is Some {
                assert(lead =~= Seq::<Op>::empty().push(Op::ClosePath).push(to_start));
                lemma_counts_push(Seq::<Op>::empty(), Op::ClosePath);
                lemma_counts_push(Seq::<Op>::empty().push(Op::ClosePath), to_start);
            } else {
                lemma_counts_push(Seq::<Op>::empty(), to_start);
            }
            lemma_counts_push(lead, stroke);
        } else {
            lemma_counts_push(Seq::<Op>::empty(), stroke);
        }
    }
}

/// A glyph whose outline has `k` contours is drawn with exactly `k` move-to
/// and exactly `k` close-path operations, and with no fill of its own.
pub proof fn lemma_glyph_counts(segments: Seq<Segment>, pen: int, base: int, s: FontScale)
    ensures
        moves(glyph_ops(segments, pen, base, s)) == contours(segments, segments.len()),
        closes(glyph_ops(segments, pen, base, s)) == contours(segments, segments.len()),
        fills(glyph_ops(segments, pen, base, s)) == 0,
{
    lemma_counts_empty();
    lemma_outline_counts(segments, segments.len(), pen, base, s);
    if segments.len() > 0 {
        lemma_counts_push(outline_ops(segments, segments.len(), pen, base, s), Op::ClosePath);
    }
}

/// Counts over the paths of the first `n` glyphs.
proof fn lemma_text_counts(glyphs: Seq<Glyph>, n: nat, origin_x: int, origin_y: int, s: FontScale)
    requires
        n <= glyphs.len(),
    ensures
        moves(text_ops(glyphs, n, origin_x, origin_y, s)) == total_contours(glyphs, n),
        closes(text_ops(glyphs, n, origin_x, origin_y, s)) == total_contours(glyphs, n),
        fills(text_ops(glyphs, n, origin_x, origin_y, s)) == 0,
    decreases n,
{
    lemma_counts_empty();
    if n > 0 {
        let m = (n - 1) as nat;
        lemma_text_counts(glyphs, m, origin_x, origin_y, s);
        let pen = pen_position(glyphs, m, origin_x, s);
        lemma_glyph_counts(glyphs[m as int].segments(), pen, origin_y, s);
        lemma_counts_concat(
            text_ops(glyphs, m, origin_x, origin_y, s),
            glyph_ops(glyphs[m as int].segments(), pen, origin_y, s),
        );
    }
}

/// The drawing program of a text holds exactly one move-to and one close-path
/// for every contour of every glyph, and exactly one fill, which comes after
/// all of them: it is the last operation but one, before the restore.
pub proof fn lemma_program_counts(glyphs: Seq<Glyph>, origin_x: int, origin_y: int, s: FontScale)
    ensures
        moves(vectorized(glyphs, origin_x, origin_y, s)) == total_contours(glyphs, glyphs.len()),
        closes(vectorized(glyphs, origin_x, origin_y, s)) == total_contours(glyphs, glyphs.len()),
        fills(vectorized(glyphs, origin_x, origin_y, s)) == 1,
        vectorized(glyphs, origin_x, origin_y, s).len() >= 5,
        vectorized(glyphs, origin_x, origin_y, s)[vectorized(glyphs, origin_x, origin_y, s).len()
            - 2] == Op::PaintFill,
        vectorized(glyphs, origin_x, origin_y, s).last() == Op::RestoreState,
{
    let body = text_ops(glyphs, glyphs.len(), origin_x, origin_y, s);
    lemma_text_counts(glyphs, glyphs.len(), origin_x, origin_y, s);
    lemma_counts_empty();
    let e = Seq::<Op>::empty();
    let p1 = e.push(Op::SaveState);
    let p2 = p1.push(Op::SetTransparency(TRANSPARENCY_STATE));
    let color = Op::SetFillColor { red: FILL_GRAY, green: FILL_GRAY, blue: FILL_GRAY };
    lemma_counts_push(e, Op::SaveState);
    lemma_counts_push(p1, Op::SetTransparency(TRANSPARENCY_STATE));
    lemma_counts_push(p2, color);
    assert(prologue() =~= p2.push(color));
    let q1 = e.push(Op::PaintFill);
    lemma_counts_push(e, Op::PaintFill);
    lemma_counts_push(q1, Op::RestoreState);
    assert(epilogue() =~= q1.push(Op::RestoreState));
    lemma_counts_concat(prologue(), body);
    lemma_counts_concat(prologue() + body, epilogue());
}

/// Raising a quadratic curve to a cubic one is exact. For a quadratic curve
/// from `q0` by the control point `q1` to `q2`, the cubic curve has the control
/// points `q0 + 2/3 * (q1 - q0)` and `q2 + 2/3 * (q1 - q2)`, whose triples are
/// `control_thirds(q0, q1)` and `control_thirds(q2, q1)`, and passes through
/// the same point as the quadratic curve at every parameter `a / b`.
pub proof fn lemma_elevation_exact(q0: int, q1: int, q2: int, a: int, b: int)
    ensures
        control_thirds(q0, q1) == 3 * q0 + 2 * (q1 - q0),
        control_thirds(q2, q1) == 3 * q2 + 2 * (q1 - q2),
        cubic_at(q0, control_thirds(q0, q1), control_thirds(q2, q1), q2, a, b) == 3 * b
            * quadratic_at(q0, q1, q2, a, b),
{
    let c = b - a;
    let ccc = c * c * c;
    let acc = a * c * c;
    let aac = a * a * c;
    let aaa = a * a * a;
    let cc = c * c;
    let ac = a * c;
    let aa = a * a;
    // the cubic, sorted by the points of the quadratic
    assert(acc * (q0 + 2 * q1) == acc * q0 + 2 * (acc * q1)) by (nonlinear_arith);
    assert(aac * (q2 + 2 * q1) == aac * q2 + 2 * (aac * q1)) by (nonlinear_arith);
    // the quadratic times `b`, sorted the same way
    assert(b * (cc * q0) == ccc * q0 + acc * q0) by (nonlinear_arith)
        requires
            b == a + c,
            cc == c * c,
            ccc == c * c * c,
            acc == a * c * c,
    ;
    assert(b * (ac * q1) == acc * q1 + aac * q1) by (nonlinear_arith)
        requires
            b == a + c,
            ac == a * c,
            acc == a * c * c,
            aac == a * a * c,
    ;
    assert(b * (aa * q2) == aac * q2 + aaa * q2) by (nonlinear_arith)
        requires
            b == a + c,
            aa == a * a,
            aac == a * a * c,
            aaa == a * a * a,
    ;
    let q = cc * q0 + 2 * (ac * q1) + aa * q2;
    assert(b * q == b * (cc * q0) + 2 * (b * (ac * q1)) + b * (aa * q2)) by (nonlinear_arith)
        requires
            q == cc * q0 + 2 * (ac * q1) + aa * q2,
    ;
    assert(3 * b * q == 3 * (b * q)) by (nonlinear_arith);
}

/// A tripled coordinate that stands for a whole one lands where the whole one
/// does.
pub proof fn lemma_thirds_of_whole(base: int, v: int, size: int, height: int)
    requires
        height > 0,
    ensures
        placed_thirds(base, 3 * v, size, height) == placed(base, v, size, height),
{
    let x = v * size;
    let q = x / height;
    let r = x % height;
    vstd::arithmetic::div_mod::lemma_fundamental_div_mod(x, height);
    vstd::arithmetic::div_mod::lemma_mod_bound(x, height);
    assert((3 * v) * size == q * (3 * height) + 3 * r) by (nonlinear_arith)
        requires
            x == v * size,
            x == height * q + r,
    ;
    vstd::arithmetic::div_mod::lemma_fundamental_div_mod_converse(
        (3 * v) * size,
        3 * height,
        q,
        3 * r,
    );
}

/// After the first `n` segments of an outline a contour is open, unless
/// there was no segment at all.
proof fn lemma_outline_runs(segments: Seq<Segment>, n: nat, pen: int, base: int, s: FontScale, k: nat)
    requires
        n <= segments.len(),
    ensures
        run(
            Some(Progress { saved: k, open: false }),
            outline_ops(segments, n, pen, base, s),
        ) == Some(Progress { saved: k, open: n > 0 }),
    decreases n,
{
    let start = Some(Progress { saved: k, open: false });
    if n > 0 {
        let m = (n - 1) as nat;
        lemma_outline_runs(segments, m, pen, base, s, k);
        let before = outline_ops(segments, m, pen, base, s);
        let previous = previous_end(segments, m as int);
        let seg = segments[m as int];
        let stroke = draw(seg, pen, base, s);
        let own = segment_ops(previous, seg, pen, base, s);
        lemma_run_concat(start, before, own);
        let e = Seq::<Op>::empty();
        let mid = run(start, before);
        if starts_contour(previous, seg.start()) {
            let to_start = Op::MoveTo {
                x: placed(pen, seg.start().x as int, s.h_size as int, s.height as int),
                y: placed(base, seg.start().y as int, s.v_size as int, s.height as int),
            };
            if previous is Some {
                assert(own =~= e.push(Op::ClosePath).push(to_start).push(stroke));
                lemma_run_push(mid, e, Op::ClosePath);
                lemma_run_push(mid, e.push(Op::ClosePath), to_start);
                lemma_run_push(mid, e.push(Op::ClosePath).push(to_start), stroke);
            } else {
                lemma_run_push(mid, e, to_start);
                lemma_run_push(mid, e.push(to_start), stroke);
            }
        } else {
            lemma_run_push(mid, e, stroke);
        }
    }
}

/// The path of a glyph leaves no contour open.
proof fn lemma_glyph_runs(segments: Seq<Segment>, pen: int, base: int, s: FontScale, k: nat)
    ensures
        run(Some(Progress { saved: k, open: false }), glyph_ops(segments, pen, base, s)) == Some(
            Progress { saved: k, open: false },
        ),
{
    if segments.len() > 0 {
        lemma_outline_runs(segments, segments.len(), pen, base, s, k);
        lemma_run_push(
            Some(Progress { saved: k, open: false }),
            outline_ops(segments, segments.len(), pen, base, s),
            Op::ClosePath,
        );
    }
}

/// The paths of the first `n` glyphs leave no contour open.
proof fn lemma_text_runs(glyphs: Seq<Glyph>, n: nat, origin_x: int, origin_y: int, s: FontScale, k: nat)
    requires
        n <= glyphs.len(),
    ensures
        run(
            Some(Progress { saved: k, open: false }),
            text_ops(glyphs, n, origin_x, origin_y, s),
        ) == Some(Progress { saved: k, open: false }),
    decreases n,
{
    if n > 0 {
        let m = (n - 1) as nat;
        lemma_text_runs(glyphs, m, origin_x, origin_y, s, k);
        let pen = pen_position(glyphs, m, origin_x, s);
        lemma_glyph_runs(glyphs[m as int].segments(), pen, origin_y, s, k);
        lemma_run_concat(
            Some(Progress { saved: k, open: false }),
            text_ops(glyphs, m, origin_x, origin_y, s),
            glyph_ops(glyphs[m as int].segments(), pen, origin_y, s),
        );
    }
}

/// The drawing program of a text is sound: every contour is closed before
/// the next one begins and before the fill paints, and the state that is
/// saved at the start is restored at the end.
pub proof fn lemma_program_sound(glyphs: Seq<Glyph>, origin_x: int, origin_y: int, s: FontScale)
    ensures
        sound(vectorized(glyphs, origin_x, origin_y, s)),
{
    let start = Some(at_rest());
    let body = text_ops(glyphs, glyphs.len(), origin_x, origin_y, s);
    let e = Seq::<Op>::empty();
    let color = Op::SetFillColor { red: FILL_GRAY, green: FILL_GRAY, blue: FILL_GRAY };
    let p1 = e.push(Op::SaveState);
    let p2 = p1.push(Op::SetTransparency(TRANSPARENCY_STATE));
    assert(prologue() =~= p2.push(color));
    lemma_run_push(start, e, Op::SaveState);
    lemma_run_push(start, p1, Op::SetTransparency(TRANSPARENCY_STATE));
    lemma_run_push(start, p2, color);
    lemma_text_runs(glyphs, glyphs.len(), origin_x, origin_y, s, 1);
    lemma_run_concat(start, prologue(), body);
    let inside = Some(Progress { saved: 1, open: false });
    let q1 = e.push(Op::PaintFill);
    assert(epilogue() =~= q1.push(Op::RestoreState));
    lemma_run_push(inside, e, Op::PaintFill);
    lemma_run_push(inside, q1, Op::RestoreState);
    lemma_run_concat(start, prologue() + body, epilogue());
}

} // verus!
