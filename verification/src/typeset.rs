//! A line of text set in a font: the glyphs of its characters are read from
//! the font, then measured or turned into a drawing program.

use vstd::prelude::*;
use crate::font::{
    coordinate_of,
    font_advance,
    font_glyph_id,
    glyph_read,
    glyphs_read,
    read_glyphs,
    read_height,
    usable_height,
};
use crate::instruction::{Op, closes, fills, moves, sound};
use crate::outline::{FontScale, Glyph};
use crate::units::{EXTENT_LIMIT, clamp, scaled};
use crate::vectorizer::{
    glyph_ops,
    measure_width,
    pen_position,
    text_ops,
    vectorize,
    vectorized,
};

verus! {

/// The scale at which a font is set for a point size: the point size on both
/// axes over the height of the font. `None` where the font has no usable
/// height or the point size is not positive or beyond the extent limit.
pub open spec fn scale_for(font: ab_glyph::FontRef, point_size: i64) -> Option<FontScale> {
    match usable_height(font) {
        Some(height) => if 0 < point_size <= EXTENT_LIMIT {
            Some(FontScale { h_size: point_size, v_size: point_size, height })
        } else {
            None
        },
        None => None,
    }
}

/// The width of the first `n` characters of a text set in a font: the scaled
/// advances of their glyphs, summed up and saturating.
pub open spec fn typeset_width(font: ab_glyph::FontRef, text: Seq<char>, n: nat, s: FontScale) -> int
    decreases n,
{
    if n == 0 {
        0
    } else {
        clamp(
            typeset_width(font, text, (n - 1) as nat, s) + scaled(
                coordinate_of(font_advance(font, font_glyph_id(font, text[n - 1]))) as int,
                s.h_size as int,
                s.height as int,
            ),
        )
    }
}

/// The pen moves over glyphs read from a font as the width of their text
/// grows.
pub proof fn lemma_width_of_read_glyphs(
    glyphs: Seq<Glyph>,
    font: ab_glyph::FontRef,
    text: Seq<char>,
    n: nat,
    s: FontScale,
)
    requires
        glyphs_read(glyphs, font, text),
        n <= text.len(),
    ensures
        pen_position(glyphs, n, 0, s) == typeset_width(font, text, n, s),
    decreases n,
{
    if n > 0 {
        lemma_width_of_read_glyphs(glyphs, font, text, (n - 1) as nat, s);
    }
}

/// Glyphs read twice from one font for one text move the pen alike and give
/// the same paths.
proof fn lemma_read_glyphs_agree(
    a: Seq<Glyph>,
    b: Seq<Glyph>,
    font: ab_glyph::FontRef,
    text: Seq<char>,
    n: nat,
    origin_x: int,
    origin_y: int,
    s: FontScale,
)
    requires
        glyphs_read(a, font, text),
        glyphs_read(b, font, text),
        n <= text.len(),
    ensures
        pen_position(a, n, origin_x, s) == pen_position(b, n, origin_x, s),
        text_ops(a, n, origin_x, origin_y, s) == text_ops(b, n, origin_x, origin_y, s),
    decreases n,
{
    if n > 0 {
        let m = (n - 1) as nat;
        lemma_read_glyphs_agree(a, b, font, text, m, origin_x, origin_y, s);
    }
}

/// Measures a line of text set in a font at a point size: the sum of the
/// scaled advances of the glyphs of its characters. `None` where the font
/// cannot be set at the point size.
pub fn measure_text_width(font: &ab_glyph::FontRef, text: &str, size: i64) -> (r: Option<i64>)
    ensures
        match scale_for(*font, size) {
            Some(s) => r matches Some(w) && w as int == typeset_width(
                *font,
                text@,
                text@.len(),
                s,
            ),
            None => r is None,
        },
{
    let s = match text_scale(font, size) {
        Some(s) => s,
        None => {
            return None;
        },
    };
    let glyphs = read_glyphs(font, text);
    proof {
        lemma_width_of_read_glyphs(glyphs@, *font, text@, text@.len(), s);
    }
    Some(measure_width(&glyphs, s))
}

/// Turns a line of text set in a font at a point size into its drawing
/// program, the pen starting at the point given: the program that the glyphs
/// of its characters give, whichever way they are read from the font. `None`
/// where the font cannot be set at the point size.
pub fn text_to_pdf_paths(font: &ab_glyph::FontRef, text: &str, x_start: i64, y_start: i64, size: i64) -> (r:
    Option<Vec<Op>>)
    ensures
        match scale_for(*font, size) {
            Some(s) => r matches Some(ops) && sound(ops@) && fills(ops@) == 1 && moves(ops@)
                == closes(ops@) && forall|glyphs: Seq<Glyph>| #[trigger]
                glyphs_read(glyphs, *font, text@) ==> ops@ == vectorized(
                    glyphs,
                    x_start as int,
                    y_start as int,
                    s,
                ),
            None => r is None,
        },
{
    let s = match text_scale(font, size) {
        Some(s) => s,
        None => {
            return None;
        },
    };
    let glyphs = read_glyphs(font, text);
    let ops = vectorize(&glyphs, x_start, y_start, s);
    proof {
        assert forall|other: Seq<Glyph>| #[trigger] glyphs_read(other, *font, text@) implies ops@
            == vectorized(other, x_start as int, y_start as int, s) by {
            lemma_read_glyphs_agree(
                glyphs@,
                other,
                *font,
                text@,
                text@.len(),
                x_start as int,
                y_start as int,
                s,
            );
        }
    }
    Some(ops)
}

/// The scale at which a font is set for a point size.
pub fn text_scale(font: &ab_glyph::FontRef, size: i64) -> (r: Option<FontScale>)
    ensures
        r == scale_for(*font, size),
        r matches Some(s) ==> s.wf(),
{
    match read_height(font) {
        Some(height) => FontScale::uniform(size, height),
        None => None,
    }
}

} // verus!
