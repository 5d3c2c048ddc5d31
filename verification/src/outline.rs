//! Glyph outlines as a font hands them out: segments in drawing order, each
//! with its own start point, in font design units.

use vstd::prelude::*;
use crate::units::EXTENT_LIMIT;

verus! {

/// Two start points closer than this on both axes count as the same point:
/// a thousandth of a design unit.
pub const CONTOUR_EPSILON: i64 = 1_000;

/// A point of an outline, in design units.
#[derive(Clone, Copy, Debug, PartialEq, Eq, Structural)]
pub struct Point {
    pub x: i64,
    pub y: i64,
}

/// One segment of an outline. The first point of each variant is where the
/// segment starts.
#[derive(Clone, Copy, Debug, PartialEq, Eq, Structural)]
pub enum Segment {
    /// A straight line from the first point to the second.
    Line(Point, Point),
    /// A quadratic curve: start, control point, end.
    Quad(Point, Point, Point),
    /// A cubic curve: start, two control points, end.
    Cubic(Point, Point, Point, Point),
}

impl Segment {
    /// Where the segment starts.
    pub open spec fn start(self) -> Point {
        match self {
            Segment::Line(p0, _) => p0,
            Segment::Quad(p0, _, _) => p0,
            Segment::Cubic(p0, _, _, _) => p0,
        }
    }

    /// Where the segment ends.
    pub open spec fn end(self) -> Point {
        match self {
            Segment::Line(_, p1) => p1,
            Segment::Quad(_, _, p2) => p2,
            Segment::Cubic(_, _, _, p3) => p3,
        }
    }

    /// The start point of the segment.
    pub fn start_point(&self) -> (p: Point)
        ensures
            p == self.start(),
    {
        match self {
            Segment::Line(p0, _) => *p0,
            Segment::Quad(p0, _, _) => *p0,
            Segment::Cubic(p0, _, _, _) => *p0,
        }
    }

    /// The end point of the segment.
    pub fn end_point(&self) -> (p: Point)
        ensures
            p == self.end(),
    {
        match self {
            Segment::Line(_, p1) => *p1,
            Segment::Quad(_, _, p2) => *p2,
            Segment::Cubic(_, _, _, p3) => *p3,
        }
    }
}

/// What a font knows of one character: its outline, if it has one, and how far
/// the pen moves after it, in design units.
#[derive(Debug, PartialEq, Eq)]
pub struct Glyph {
    pub outline: Option<Vec<Segment>>,
    pub advance: i64,
}

impl Glyph {
    /// The segments of the outline; none for a glyph without one.
    pub open spec fn segments(self) -> Seq<Segment> {
        match self.outline {
            Some(v) => v@,
            None => Seq::empty(),
        }
    }
}

/// The size at which a font is set: the point size along each axis and the
/// height of the font in design units. A design coordinate `v` lands at
/// `v * size / height`.
#[derive(Clone, Copy, Debug, PartialEq, Eq, Structural)]
pub struct FontScale {
    pub h_size: i64,
    pub v_size: i64,
    pub height: i64,
}

impl FontScale {
    /// All three values are positive and within the extent limit.
    pub open spec fn wf(self) -> bool {
        &&& 0 < self.h_size <= EXTENT_LIMIT
        &&& 0 < self.v_size <= EXTENT_LIMIT
        &&& 0 < self.height <= EXTENT_LIMIT
    }

    /// The same point size on both axes, or `None` where a value is not
    /// positive or is beyond the extent limit.
    pub fn uniform(point_size: i64, height: i64) -> (r: Option<FontScale>)
        ensures
            r is Some <==> 0 < point_size <= EXTENT_LIMIT && 0 < height <= EXTENT_LIMIT,
            r is Some ==> r.unwrap() == (FontScale { h_size: point_size, v_size: point_size, height })
                && r.unwrap().wf(),
    {
        if 0 < point_size && point_size <= EXTENT_LIMIT && 0 < height && height <= EXTENT_LIMIT {
            Some(FontScale { h_size: point_size, v_size: point_size, height })
        } else {
            None
        }
    }

    /// Whether the scale is well formed.
    pub fn is_valid(&self) -> (b: bool)
        ensures
            b == self.wf(),
    {
        0 < self.h_size && self.h_size <= EXTENT_LIMIT && 0 < self.v_size && self.v_size
            <= EXTENT_LIMIT && 0 < self.height && self.height <= EXTENT_LIMIT
    }
}

/// The end of the segment before position `k`, if there is one.
pub open spec fn previous_end(segments: Seq<Segment>, k: int) -> Option<Point> {
    if k <= 0 {
        None
    } else {
        Some(segments[k - 1].end())
    }
}

/// Whether a segment that starts at `start` opens a new contour, given where
/// the segment before it ended.
pub open spec fn starts_contour(previous: Option<Point>, start: Point) -> bool {
    match previous {
        None => true,
        Some(last) => {
            ||| start.x - last.x > CONTOUR_EPSILON
            ||| last.x - start.x > CONTOUR_EPSILON
            ||| start.y - last.y > CONTOUR_EPSILON
            ||| last.y - start.y > CONTOUR_EPSILON
        },
    }
}

/// How many contours the first `n` segments open.
pub open spec fn contours(segments: Seq<Segment>, n: nat) -> nat
    decreases n,
{
    if n == 0 {
        0
    } else {
        let before = contours(segments, (n - 1) as nat);
        if starts_contour(previous_end(segments, n - 1), segments[n - 1].start()) {
            before + 1
        } else {
            before
        }
    }
}

/// Decides whether a segment opens a new contour.
pub fn opens_contour(previous: Option<Point>, start: Point) -> (b: bool)
    ensures
        b == starts_contour(previous, start),
{
    match previous {
        None => true,
        Some(last) => {
            let dx: i128 = start.x as i128 - last.x as i128;
            let dy: i128 = start.y as i128 - last.y as i128;
            let eps: i128 = CONTOUR_EPSILON as i128;
            dx > eps || -dx > eps || dy > eps || -dy > eps
        },
    }
}

} // verus!
