//! Glyphs read out of a font. The font itself is not proved here: what it
//! holds is given names, and each call into it is one small function whose
//! contract is taken on trust. The font hands out single-precision numbers;
//! they are taken by their bit patterns and read into fixed point.

use ab_glyph::Font;
use vstd::prelude::*;
use crate::binary32::{micro_from_single, single_micro};
use crate::outline::{Glyph, Point, Segment};
use crate::units::EXTENT_LIMIT;

verus! {

/// A font that borrows its data.
#[verifier::external_type_specification]
#[verifier::external_body]
pub struct ExFontRef<'a>(ab_glyph::FontRef<'a>);

/// One curve of an outline as the font holds it.
#[verifier::external_type_specification]
#[verifier::external_body]
pub struct ExOutlineCurve(ab_glyph::OutlineCurve);

/// A point of an outline, each coordinate by the bit pattern of its
/// single-precision number.
#[derive(Clone, Copy, Debug, PartialEq, Eq, Structural)]
pub struct RawPoint {
    pub x: u32,
    pub y: u32,
}

/// A curve of an outline by bit patterns. The first point of each variant is
/// where the curve starts.
#[derive(Clone, Copy, Debug, PartialEq, Eq, Structural)]
pub enum RawCurve {
    Line(RawPoint, RawPoint),
    Quad(RawPoint, RawPoint, RawPoint),
    Cubic(RawPoint, RawPoint, RawPoint, RawPoint),
}

/// The number of the glyph that a font has for a character.
pub uninterp spec fn font_glyph_id(font: ab_glyph::FontRef, c: char) -> u16;

/// How far the pen moves after a glyph, in design units, by bit pattern.
pub uninterp spec fn font_advance(font: ab_glyph::FontRef, id: u16) -> u32;

/// The height of a font in design units, ascent less descent, by bit pattern.
pub uninterp spec fn font_height(font: ab_glyph::FontRef) -> u32;

/// The curves of the outline of a glyph, in drawing order; `None` for a glyph
/// that has no outline.
pub uninterp spec fn font_outline(font: ab_glyph::FontRef, id: u16) -> Option<Seq<RawCurve>>;

/// What a curve holds.
pub uninterp spec fn curve_shape(c: ab_glyph::OutlineCurve) -> RawCurve;

/// `Font::glyph_id`: the glyph for a character.
#[verifier::external_body]
pub(crate) fn glyph_number(font: &ab_glyph::FontRef, c: char) -> (id: u16)
    ensures
        id == font_glyph_id(*font, c),
{
    font.glyph_id(c).0
}

/// `Font::h_advance_unscaled`: the advance of a glyph.
#[verifier::external_body]
pub(crate) fn advance_bits(font: &ab_glyph::FontRef, id: u16) -> (bits: u32)
    ensures
        bits == font_advance(*font, id),
{
    font.h_advance_unscaled(ab_glyph::GlyphId(id)).to_bits()
}

/// `Font::height_unscaled`: the height of the font.
#[verifier::external_body]
pub(crate) fn height_bits(font: &ab_glyph::FontRef) -> (bits: u32)
    ensures
        bits == font_height(*font),
{
    font.height_unscaled().to_bits()
}

/// `Font::outline`: the curves of a glyph.
#[verifier::external_body]
pub(crate) fn outline_curves(font: &ab_glyph::FontRef, id: u16) -> (r: Option<Vec<ab_glyph::OutlineCurve>>)
    ensures
        match r {
            Some(curves) => font_outline(*font, id) == Some(
                Seq::new(curves@.len(), |i: int| curve_shape(curves@[i])),
            ),
            None => font_outline(*font, id) is None,
        },
{
    font.outline(ab_glyph::GlyphId(id)).map(|outline| outline.curves)
}

/// Tells the variants of `OutlineCurve` apart and hands out every coordinate
/// by its bit pattern.
#[verifier::external_body]
pub(crate) fn classify_curve(c: &ab_glyph::OutlineCurve) -> (r: RawCurve)
    ensures
        r == curve_shape(*c),
{
    let raw = |p: &ab_glyph::Point| RawPoint { x: p.x.to_bits(), y: p.y.to_bits() };
    match c {
        ab_glyph::OutlineCurve::Line(a, b) => RawCurve::Line(raw(a), raw(b)),
        ab_glyph::OutlineCurve::Quad(a, b, c) => RawCurve::Quad(raw(a), raw(b), raw(c)),
        ab_glyph::OutlineCurve::Cubic(a, b, c, d) => RawCurve::Cubic(raw(a), raw(b), raw(c), raw(d)),
    }
}

/// A coordinate in millionths, rounded towards zero; zero for what is no
/// number or cannot be held.
pub open spec fn coordinate_of(bits: u32) -> i64 {
    match single_micro(bits) {
        Some(v) => v as i64,
        None => 0,
    }
}

/// A point in fixed point.
pub open spec fn point_of(p: RawPoint) -> Point {
    Point { x: coordinate_of(p.x), y: coordinate_of(p.y) }
}

/// A curve in fixed point.
pub open spec fn segment_of(c: RawCurve) -> Segment {
    match c {
        RawCurve::Line(a, b) => Segment::Line(point_of(a), point_of(b)),
        RawCurve::Quad(a, b, c) => Segment::Quad(point_of(a), point_of(b), point_of(c)),
        RawCurve::Cubic(a, b, c, d) => Segment::Cubic(
            point_of(a),
            point_of(b),
            point_of(c),
            point_of(d),
        ),
    }
}

/// Whether a glyph is what a font has for a character: the same advance, and
/// the same outline, curve by curve, or none where the font has none.
pub open spec fn glyph_read(g: Glyph, font: ab_glyph::FontRef, c: char) -> bool {
    let id = font_glyph_id(font, c);
    &&& g.advance == coordinate_of(font_advance(font, id))
    &&& match font_outline(font, id) {
        Some(curves) => g.outline is Some && g.segments() == Seq::new(
            curves.len(),
            |i: int| segment_of(curves[i]),
        ),
        None => g.outline is None,
    }
}

/// Whether glyphs are what a font has for the characters of a text, one for
/// each, in order.
pub open spec fn glyphs_read(glyphs: Seq<Glyph>, font: ab_glyph::FontRef, text: Seq<char>) -> bool {
    &&& glyphs.len() == text.len()
    &&& forall|i: int| 0 <= i < glyphs.len() ==> glyph_read(#[trigger] glyphs[i], font, text[i])
}

/// The height of a font in millionths, where it is positive and within the
/// extent limit.
pub open spec fn usable_height(font: ab_glyph::FontRef) -> Option<i64> {
    match single_micro(font_height(font)) {
        Some(h) => if 0 < h <= EXTENT_LIMIT {
            Some(h as i64)
        } else {
            None
        },
        None => None,
    }
}

/// Reads a coordinate.
pub fn coordinate(bits: u32) -> (v: i64)
    ensures
        v == coordinate_of(bits),
{
    match micro_from_single(bits) {
        Some(v) => v,
        None => 0,
    }
}

/// Reads a point.
fn read_point(p: RawPoint) -> (r: Point)
    ensures
        r == point_of(p),
{
    Point { x: coordinate(p.x), y: coordinate(p.y) }
}

/// Reads a curve.
pub fn read_curve(c: RawCurve) -> (r: Segment)
    ensures
        r == segment_of(c),
{
    match c {
        RawCurve::Line(a, b) => Segment::Line(read_point(a), read_point(b)),
        RawCurve::Quad(a, b, c) => Segment::Quad(read_point(a), read_point(b), read_point(c)),
        RawCurve::Cubic(a, b, c, d) => Segment::Cubic(
            read_point(a),
            read_point(b),
            read_point(c),
            read_point(d),
        ),
    }
}

/// Reads the glyph that a font has for a character: its outline, if it has
/// one, and its advance.
pub fn read_glyph(font: &ab_glyph::FontRef, c: char) -> (g: Glyph)
    ensures
        glyph_read(g, *font, c),
{
    let id = glyph_number(font, c);
    let advance = coordinate(advance_bits(font, id));
    match outline_curves(font, id) {
        None => Glyph { outline: None, advance },
        Some(curves) => {
            let mut segments: Vec<Segment> = Vec::new();
            let mut i: usize = 0;
            while i < curves.len()
                invariant
                    i <= curves.len(),
                    segments@.len() == i,
                    forall|k: int|
                        0 <= k < i ==> segments@[k] == segment_of(curve_shape(curves@[k])),
                decreases curves.len() - i,
            {
                segments.push(read_curve(classify_curve(&curves[i])));
                i += 1;
            }
            let g = Glyph { outline: Some(segments), advance };
            proof {
                let raw = font_outline(*font, id).unwrap();
                assert(g.segments() =~= Seq::new(raw.len(), |i: int| segment_of(raw[i])));
            }
            g
        },
    }
}

/// Reads the glyphs of the characters of a text, in order.
pub fn read_glyphs(font: &ab_glyph::FontRef, text: &str) -> (glyphs: Vec<Glyph>)
    ensures
        glyphs_read(glyphs@, *font, text@),
{
    let mut glyphs: Vec<Glyph> = Vec::new();
    for c in it: text.chars()
        invariant
            it.seq() == text@,
            glyphs@.len() == it.index(),
            forall|k: int|
                0 <= k < it.index() ==> glyph_read(#[trigger] glyphs@[k], *font, text@[k]),
    {
        glyphs.push(read_glyph(font, c));
    }
    glyphs
}

/// Reads the height of a font; `None` where it is not positive or beyond the
/// extent limit.
pub fn read_height(font: &ab_glyph::FontRef) -> (r: Option<i64>)
    ensures
        r == usable_height(*font),
{
    match micro_from_single(height_bits(font)) {
        Some(h) => if 0 < h && h <= EXTENT_LIMIT {
            Some(h)
        } else {
            None
        },
        None => None,
    }
}

} // verus!
