use ab_glyph::FontRef;
use lopdf::content::Content;
use lopdf::{Dictionary, Document, Object};
use pdf_watermark::engine::{watermark_text, PageOutcome, RunError};
use pdf_watermark::font::{coordinate, read_curve, read_glyph, read_glyphs, read_height, RawCurve, RawPoint};
use pdf_watermark::grid::{plan_grid, Config, PageGeometry, PlanError};
use pdf_watermark::instruction::Op;
use pdf_watermark::outline::{FontScale, Glyph, Point, Segment};
use pdf_watermark::render::render;
use pdf_watermark::typeset::{measure_text_width, text_scale, text_to_pdf_paths};
use pdf_watermark::vectorizer::vectorize;

const UNIT: i64 = 1_000_000;

/// A font of a thousand units to the em with five glyphs: an empty one for
/// unknown characters, a triangle for `A`, nothing for the space, two
/// contours with one curve for `o`, and a square for one ideograph. The font
/// library ends every contour with a line back to its start and one more of
/// no length.
const FONT: [u8; 468] = [
    0, 1, 0, 0, 0, 7, 0, 64, 0, 2, 0, 48, 99, 109, 97, 112,
    3, 245, 127, 62, 0, 0, 0, 124, 0, 0, 0, 68, 103, 108, 121, 102,
    192, 241, 17, 27, 0, 0, 0, 192, 0, 0, 0, 120, 104, 101, 97, 100,
    98, 152, 67, 61, 0, 0, 1, 56, 0, 0, 0, 54, 104, 104, 101, 97,
    6, 166, 3, 38, 0, 0, 1, 112, 0, 0, 0, 36, 104, 109, 116, 120,
    11, 134, 0, 0, 0, 0, 1, 148, 0, 0, 0, 20, 108, 111, 99, 97,
    0, 58, 0, 75, 0, 0, 1, 168, 0, 0, 0, 12, 109, 97, 120, 112,
    0, 8, 0, 9, 0, 0, 1, 180, 0, 0, 0, 32, 0, 0, 0, 1,
    0, 3, 0, 1, 0, 0, 0, 12, 0, 4, 0, 56, 0, 0, 0, 10,
    0, 8, 0, 2, 0, 2, 0, 32, 0, 65, 0, 111, 129, 244, 255, 255,
    0, 0, 0, 32, 0, 65, 0, 111, 129, 244, 255, 255, 255, 226, 255, 192,
    255, 148, 126, 16, 0, 1, 0, 0, 0, 0, 0, 0, 0, 0, 0, 0,
    0, 1, 0, 0, 0, 0, 1, 244, 2, 188, 0, 2, 0, 0, 1, 1,
    1, 0, 0, 1, 244, 255, 6, 0, 0, 0, 0, 2, 188, 0, 0, 2,
    0, 50, 0, 0, 1, 244, 1, 244, 0, 4, 0, 7, 0, 0, 1, 1,
    0, 1, 1, 1, 1, 1, 0, 50, 1, 144, 0, 50, 255, 206, 254, 112,
    0, 150, 0, 50, 0, 50, 0, 0, 0, 0, 0, 250, 0, 250, 0, 0,
    254, 162, 0, 200, 255, 56, 0, 1, 0, 100, 255, 156, 3, 132, 2, 188,
    0, 3, 0, 0, 1, 1, 1, 1, 0, 100, 3, 32, 0, 0, 252, 224,
    255, 156, 0, 0, 3, 32, 0, 0, 0, 1, 0, 0, 0, 1, 0, 0,
    0, 0, 0, 0, 95, 15, 60, 245, 0, 0, 3, 232, 0, 0, 0, 0,
    0, 0, 0, 0, 0, 0, 0, 0, 0, 0, 0, 0, 0, 0, 255, 156,
    3, 132, 2, 188, 0, 0, 0, 8, 0, 2, 0, 0, 0, 0, 0, 0,
    0, 1, 0, 0, 3, 32, 255, 56, 0, 0, 3, 232, 0, 0, 0, 0,
    3, 132, 0, 1, 0, 0, 0, 0, 0, 0, 0, 0, 0, 0, 0, 0,
    0, 0, 0, 5, 1, 244, 0, 0, 2, 88, 0, 0, 1, 44, 0, 0,
    2, 38, 0, 0, 3, 232, 0, 0, 0, 0, 0, 0, 0, 15, 0, 15,
    0, 43, 0, 60, 0, 1, 0, 0, 0, 5, 0, 8, 0, 2, 0, 0,
    0, 0, 0, 1, 0, 0, 0, 0, 0, 0, 0, 0, 0, 0, 0, 0,
    0, 0, 0, 0,
];

/// Where the ascender and the descender stand in the font.
const ASCENDER_AT: usize = 372;

fn font() -> FontRef<'static> {
    FontRef::try_from_slice(&FONT).expect("a font")
}

fn units(x: i64, y: i64) -> Point {
    Point { x: x * UNIT, y: y * UNIT }
}

fn line(a: (i64, i64), b: (i64, i64)) -> Segment {
    Segment::Line(units(a.0, a.1), units(b.0, b.1))
}

fn triangle_glyph() -> Glyph {
    Glyph {
        outline: Some(vec![
            line((0, 0), (500, 0)),
            line((500, 0), (250, 700)),
            line((250, 700), (0, 0)),
            line((0, 0), (0, 0)),
        ]),
        advance: 600 * UNIT,
    }
}

fn ring() -> Glyph {
    Glyph {
        outline: Some(vec![
            line((50, 0), (450, 0)),
            Segment::Quad(units(450, 0), units(500, 250), units(450, 500)),
            line((450, 500), (50, 500)),
            line((50, 500), (50, 0)),
            line((50, 0), (50, 0)),
            line((200, 150), (250, 350)),
            line((250, 350), (300, 150)),
            line((300, 150), (200, 150)),
            line((200, 150), (200, 150)),
        ]),
        advance: 550 * UNIT,
    }
}

fn one_page() -> (Document, (u32, u16)) {
    let mut doc = Document::with_version("1.5");
    let tree = doc.new_object_id();
    let mut page = Dictionary::new();
    page.set("Type", Object::Name(b"Page".to_vec()));
    page.set("Parent", Object::Reference(tree));
    let page = doc.add_object(Object::Dictionary(page));
    let mut pages = Dictionary::new();
    pages.set("Type", Object::Name(b"Pages".to_vec()));
    pages.set("Count", Object::Integer(1));
    pages.set("Kids", Object::Array(vec![Object::Reference(page)]));
    doc.objects.insert(tree, Object::Dictionary(pages));
    let mut catalog = Dictionary::new();
    catalog.set("Type", Object::Name(b"Catalog".to_vec()));
    catalog.set("Pages", Object::Reference(tree));
    let catalog = doc.add_object(Object::Dictionary(catalog));
    doc.trailer.set("Root", Object::Reference(catalog));
    (doc, page)
}

fn bare_form() -> Dictionary {
    let mut dict = Dictionary::new();
    dict.set("Type", Object::Name(b"XObject".to_vec()));
    dict.set("Subtype", Object::Name(b"Form".to_vec()));
    dict
}

#[test]
fn a_glyph_with_one_contour_is_read() {
    assert_eq!(read_glyph(&font(), 'A'), triangle_glyph());
}

#[test]
fn a_glyph_with_a_curve_and_two_contours_is_read() {
    assert_eq!(read_glyph(&font(), 'o'), ring());
}

#[test]
fn a_glyph_without_outline_has_its_advance() {
    assert_eq!(read_glyph(&font(), ' '), Glyph { outline: None, advance: 300 * UNIT });
}

#[test]
fn an_unknown_character_gets_the_empty_glyph() {
    assert_eq!(read_glyph(&font(), 'Z'), Glyph { outline: None, advance: 500 * UNIT });
}

#[test]
fn an_ideograph_is_read() {
    let glyph = read_glyph(&font(), '\u{81f4}');
    assert_eq!(glyph.advance, 1000 * UNIT);
    assert_eq!(
        glyph.outline,
        Some(vec![
            line((100, -100), (900, -100)),
            line((900, -100), (900, 700)),
            line((900, 700), (100, 700)),
            line((100, 700), (100, -100)),
            line((100, -100), (100, -100)),
        ])
    );
}

#[test]
fn the_glyphs_of_a_text_come_in_order() {
    let glyphs = read_glyphs(&font(), "A o");
    assert_eq!(
        glyphs,
        vec![triangle_glyph(), Glyph { outline: None, advance: 300 * UNIT }, ring()]
    );
    assert_eq!(read_glyphs(&font(), ""), Vec::new());
}

#[test]
fn the_height_is_ascent_less_descent() {
    assert_eq!(read_height(&font()), Some(1000 * UNIT));
}

#[test]
fn a_font_without_height_is_not_usable() {
    let mut flat = FONT.to_vec();
    // ascender and descender both zero
    flat[ASCENDER_AT..ASCENDER_AT + 4].copy_from_slice(&[0, 0, 0, 0]);
    let flat_font = FontRef::try_from_slice(&flat).expect("a font");
    assert_eq!(read_height(&flat_font), None);
    assert_eq!(text_scale(&flat_font, 26 * UNIT), None);
    assert_eq!(measure_text_width(&flat_font, "A", 26 * UNIT), None);
    assert_eq!(text_to_pdf_paths(&flat_font, "A", 0, 0, 26 * UNIT), None);
    let (mut doc, _) = one_page();
    let before = doc.objects.clone();
    assert_eq!(
        watermark_text(&mut doc, bare_form(), &flat_font, "A", &Config::standard()),
        Err(RunError::FontUnusable)
    );
    assert_eq!(doc.objects, before);

    let mut upside_down = FONT.to_vec();
    // ascender -200, descender 800
    upside_down[ASCENDER_AT..ASCENDER_AT + 4].copy_from_slice(&[0xff, 0x38, 0x03, 0x20]);
    let odd_font = FontRef::try_from_slice(&upside_down).expect("a font");
    assert_eq!(read_height(&odd_font), None);
}

#[test]
fn coordinates_are_read_from_bit_patterns() {
    assert_eq!(coordinate(700.0f32.to_bits()), 700 * UNIT);
    assert_eq!(coordinate((-0.25f32).to_bits()), -250_000);
    assert_eq!(coordinate(f32::NAN.to_bits()), 0);
    assert_eq!(coordinate(f32::INFINITY.to_bits()), 0);
    assert_eq!(coordinate(1e30f32.to_bits()), 0);
    let raw = |x: f32, y: f32| RawPoint { x: x.to_bits(), y: y.to_bits() };
    assert_eq!(
        read_curve(RawCurve::Line(raw(1.0, 2.0), raw(3.0, 4.5))),
        Segment::Line(units(1, 2), Point { x: 3 * UNIT, y: 4_500_000 })
    );
    assert_eq!(
        read_curve(RawCurve::Quad(raw(1.0, 2.0), raw(3.0, 4.0), raw(5.0, 6.0))),
        Segment::Quad(units(1, 2), units(3, 4), units(5, 6))
    );
    assert_eq!(
        read_curve(RawCurve::Cubic(raw(1.0, 2.0), raw(3.0, 4.0), raw(5.0, 6.0), raw(7.0, 8.0))),
        Segment::Cubic(units(1, 2), units(3, 4), units(5, 6), units(7, 8))
    );
}

#[test]
fn the_width_of_a_text_is_the_sum_of_its_scaled_advances() {
    // 600, 300 and 550 units at 26 over 1000
    assert_eq!(measure_text_width(&font(), "A o", 26 * UNIT), Some(37_700_000));
    assert_eq!(measure_text_width(&font(), " ", 26 * UNIT), Some(7_800_000));
    assert_eq!(measure_text_width(&font(), "", 26 * UNIT), Some(0));
    assert_eq!(measure_text_width(&font(), "A o", 0), None);
    assert_eq!(measure_text_width(&font(), "A o", -UNIT), None);
}

#[test]
fn a_scale_is_the_point_size_over_the_height() {
    assert_eq!(
        text_scale(&font(), 26 * UNIT),
        Some(FontScale { h_size: 26 * UNIT, v_size: 26 * UNIT, height: 1000 * UNIT })
    );
    assert_eq!(text_scale(&font(), 0), None);
}

#[test]
fn a_text_becomes_the_program_of_its_glyphs() {
    let ops = text_to_pdf_paths(&font(), " A", 0, 0, 100 * UNIT).expect("a program");
    assert_eq!(
        ops,
        vec![
            Op::SaveState,
            Op::SetTransparency(1),
            Op::SetFillColor { red: 100_000, green: 100_000, blue: 100_000 },
            Op::MoveTo { x: 30 * UNIT, y: 0 },
            Op::LineTo { x: 80 * UNIT, y: 0 },
            Op::LineTo { x: 55 * UNIT, y: 70 * UNIT },
            Op::LineTo { x: 30 * UNIT, y: 0 },
            Op::LineTo { x: 30 * UNIT, y: 0 },
            Op::ClosePath,
            Op::PaintFill,
            Op::RestoreState,
        ]
    );
    let scale = FontScale::uniform(26 * UNIT, 1000 * UNIT).expect("a scale");
    assert_eq!(
        text_to_pdf_paths(&font(), "A o", 5 * UNIT, -UNIT, 26 * UNIT),
        Some(vectorize(&read_glyphs(&font(), "A o"), 5 * UNIT, -UNIT, scale))
    );
    assert_eq!(text_to_pdf_paths(&font(), "A", 0, 0, 0), None);
}

#[test]
fn a_document_is_watermarked_with_text_in_a_font() {
    let (mut doc, page) = one_page();
    let config = Config::standard();
    let records = watermark_text(&mut doc, bare_form(), &font(), "A o", &config).expect("a run");
    assert_eq!(records.len(), 1);
    let plan = plan_grid(&config, 1, &PageGeometry::standard(), 37_700_000).expect("a plan");
    assert_eq!(records[0].page, page);
    assert_eq!(records[0].outcome, PageOutcome::Watermarked { instances: plan.len() / 4 });
    let outline = text_to_pdf_paths(&font(), "A o", 0, 0, config.point_size).expect("a program");
    let mut contents = Vec::new();
    for (_, object) in doc.objects.iter() {
        if let Object::Stream(stream) = object {
            contents.push(stream.content.clone());
        }
    }
    assert_eq!(contents, vec![render(&outline), render(&plan)]);
}

#[test]
fn a_point_size_of_nothing_is_a_sizing_error_for_text_too() {
    let (mut doc, _) = one_page();
    let mut config = Config::standard();
    config.point_size = 0;
    assert_eq!(
        watermark_text(&mut doc, bare_form(), &font(), "A", &config),
        Err(RunError::Plan(PlanError::Sizing))
    );
}

#[test]
fn a_watermarked_document_can_be_written_and_read_again() {
    let (mut doc, page) = one_page();
    let records =
        watermark_text(&mut doc, bare_form(), &font(), "A o", &Config::standard()).expect("a run");
    let instances = match records[0].outcome {
        PageOutcome::Watermarked { instances } => instances,
        other => panic!("not watermarked: {:?}", other),
    };
    let mut written = Vec::new();
    doc.save_to(&mut written).expect("a written document");
    let read = Document::load_mem(&written).expect("a document");
    assert_eq!(read.get_pages().len(), 1);
    let content = read.get_page_content(page);
    let operations = Content::decode(&content).expect("a content stream").operations;
    let draws = operations.iter().filter(|op| op.operator == "Do").count();
    assert_eq!(draws, instances);
    assert_eq!(operations.len(), 4 * instances);
    let (resources, _) = read.get_page_resources(page).expect("resources");
    let drawables = resources
        .expect("a dictionary")
        .get(b"XObject")
        .and_then(Object::as_dict)
        .expect("drawable resources");
    let resource = drawables.get(b"Watermark1").and_then(Object::as_reference).expect("an entry");
    let form = read.get_object(resource).and_then(Object::as_stream).expect("a stream");
    let outline = Content::decode(&form.content).expect("a content stream").operations;
    let operators: Vec<&str> = outline.iter().map(|op| op.operator.as_str()).collect();
    assert_eq!(operators[..3].to_vec(), vec!["q", "gs", "rg"]);
    assert_eq!(operators[operators.len() - 2..].to_vec(), vec!["f", "Q"]);
    assert_eq!(operators.iter().filter(|o| **o == "m").count(), 3);
    assert_eq!(operators.iter().filter(|o| **o == "h").count(), 3);
    assert_eq!(operators.iter().filter(|o| **o == "c").count(), 1);
}
