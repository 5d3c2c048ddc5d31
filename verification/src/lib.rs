//! Vector text watermarks for paged documents. A line of text is drawn as the
//! outlines of its glyphs, entered into a document once as a reusable
//! resource, and placed over every page on a tilted grid.
//!
//! All geometry is fixed-point arithmetic on integers, a million steps to the
//! unit, so that every result is stated exactly and proved.
//!
//! - [`units`], [`angle`], [`binary32`]: numbers, directions, and reading
//!   single-precision numbers from their bits.
//! - [`outline`], [`instruction`], [`vectorizer`]: glyph outlines, drawing
//!   instructions, and the program that draws a line of text.
//! - [`grid`]: the settings of a run and the instances planned for a page.
//! - [`render`]: drawing instructions as the text of a content stream.
//! - [`font`], [`typeset`]: glyphs read from a font, and text set in it.
//! - [`pdf`], [`shelf`]: the document, and the model over which the writes
//!   to it are stated.
//! - [`page`], [`engine`]: what is read of a page and written to it, and the
//!   run over all pages.

pub mod angle;
pub mod binary32;
pub mod engine;
pub mod font;
pub mod grid;
pub mod instruction;
pub mod outline;
pub mod page;
pub mod pdf;
pub mod render;
pub mod shelf;
pub mod typeset;
pub mod units;
pub mod vectorizer;
