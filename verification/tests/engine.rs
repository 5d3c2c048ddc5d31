use lopdf::{Dictionary, Document, Object, ObjectId, Stream};
use pdf_watermark::engine::{
    append_instructions, check_page, inject, room_left, stamp, survey, watermark_document,
    watermark_pages, PageOutcome, PageRecord, PageSurvey, RunError, WATERMARK_RESOURCE,
};
use pdf_watermark::grid::{measure_lattice, plan_grid, Config, PageGeometry, PlanError};
use pdf_watermark::instruction::Op;
use pdf_watermark::outline::{FontScale, Glyph, Point, Segment};
use pdf_watermark::page::PageError;
use pdf_watermark::render::render;
use pdf_watermark::vectorizer::{measure_width, vectorize};

const UNIT: i64 = 1_000_000;

fn plain_page(rotate: Option<i64>) -> Object {
    let mut dict = Dictionary::new();
    dict.set("Type", Object::Name(b"Page".to_vec()));
    dict.set(
        "MediaBox",
        Object::Array(vec![
            Object::Integer(0),
            Object::Integer(0),
            Object::Integer(595),
            Object::Integer(842),
        ]),
    );
    if let Some(rotate) = rotate {
        dict.set("Rotate", Object::Integer(rotate));
    }
    Object::Dictionary(dict)
}

/// A document whose page tree lists the given objects as its pages.
fn document(pages: Vec<Object>) -> (Document, Vec<ObjectId>) {
    let mut doc = Document::with_version("1.5");
    let tree = doc.new_object_id();
    let mut ids = Vec::new();
    for mut page in pages {
        if let Object::Dictionary(dict) = &mut page {
            dict.set("Parent", Object::Reference(tree));
        }
        ids.push(doc.add_object(page));
    }
    let mut pages = Dictionary::new();
    pages.set("Type", Object::Name(b"Pages".to_vec()));
    pages.set("Count", Object::Integer(ids.len() as i64));
    pages.set(
        "Kids",
        Object::Array(ids.iter().map(|id| Object::Reference(*id)).collect()),
    );
    doc.objects.insert(tree, Object::Dictionary(pages));
    let mut catalog = Dictionary::new();
    catalog.set("Type", Object::Name(b"Catalog".to_vec()));
    catalog.set("Pages", Object::Reference(tree));
    let catalog = doc.add_object(Object::Dictionary(catalog));
    doc.trailer.set("Root", Object::Reference(catalog));
    (doc, ids)
}

fn content_of(doc: &Document, page: ObjectId) -> Vec<u8> {
    let mut all = Vec::new();
    for id in doc.get_page_contents(page) {
        if let Ok(Object::Stream(stream)) = doc.get_object(id) {
            all.extend_from_slice(&stream.content);
        }
    }
    all
}

fn draws_the_watermark(doc: &Document, page: ObjectId) -> bool {
    let content = content_of(doc, page);
    content.windows(14).any(|w| w == b"/Watermark1 Do")
}

fn knows_the_watermark(doc: &Document, page: ObjectId, resource: ObjectId) -> bool {
    let dict = match doc.get_object(page) {
        Ok(Object::Dictionary(d)) => d,
        Ok(Object::Stream(s)) => &s.dict,
        _ => return false,
    };
    dict.get(b"Resources")
        .and_then(Object::as_dict)
        .and_then(|r| r.get(b"XObject"))
        .and_then(Object::as_dict)
        .and_then(|x| x.get(b"Watermark1"))
        .map(|o| o == &Object::Reference(resource))
        .unwrap_or(false)
}

fn letter() -> Vec<Glyph> {
    vec![
        Glyph {
            outline: Some(vec![
                Segment::Line(Point { x: 0, y: 0 }, Point { x: 500 * UNIT, y: 0 }),
                Segment::Quad(
                    Point { x: 500 * UNIT, y: 0 },
                    Point { x: 600 * UNIT, y: 400 * UNIT },
                    Point { x: 250 * UNIT, y: 700 * UNIT },
                ),
                Segment::Line(Point { x: 250 * UNIT, y: 700 * UNIT }, Point { x: 0, y: 0 }),
            ]),
            advance: 600 * UNIT,
        },
        Glyph { outline: None, advance: 300 * UNIT },
    ]
}

fn form() -> Dictionary {
    let mut state = Dictionary::new();
    state.set("Type", Object::Name(b"ExtGState".to_vec()));
    state.set("ca", Object::Real(0.1));
    state.set("CA", Object::Real(0.1));
    let mut states = Dictionary::new();
    states.set("GS1", Object::Dictionary(state));
    let mut resources = Dictionary::new();
    resources.set("ExtGState", Object::Dictionary(states));
    let mut dict = Dictionary::new();
    dict.set("Type", Object::Name(b"XObject".to_vec()));
    dict.set("Subtype", Object::Name(b"Form".to_vec()));
    dict.set("Resources", Object::Dictionary(resources));
    dict
}

#[test]
fn every_page_of_a_sound_document_is_watermarked() {
    let (mut doc, ids) = document(vec![plain_page(None), plain_page(Some(90)), plain_page(None)]);
    let resource = doc.add_object(Object::Stream(Stream::new(form(), b"q Q".to_vec())));
    let records = watermark_pages(&mut doc, &Config::standard(), 1, resource, 200 * UNIT)
        .expect("a finished run");
    assert_eq!(
        records,
        vec![
            PageRecord { number: 1, page: ids[0], outcome: PageOutcome::Watermarked { instances: 19 } },
            PageRecord { number: 2, page: ids[1], outcome: PageOutcome::Watermarked { instances: 19 } },
            PageRecord { number: 3, page: ids[2], outcome: PageOutcome::Watermarked { instances: 19 } },
        ]
    );
    for id in &ids {
        assert!(draws_the_watermark(&doc, *id));
        assert!(knows_the_watermark(&doc, *id, resource));
    }
}

#[test]
fn the_appended_content_is_the_rendered_plan() {
    let (mut doc, ids) = document(vec![plain_page(None), plain_page(Some(90))]);
    let resource = doc.add_object(Object::Stream(Stream::new(form(), b"q Q".to_vec())));
    watermark_pages(&mut doc, &Config::standard(), 1, resource, 200 * UNIT).expect("a run");
    let upright = plan_grid(&Config::standard(), 1, &PageGeometry::standard(), 200 * UNIT)
        .expect("a plan");
    assert_eq!(content_of(&doc, ids[0]), render(&upright));
    let turned = PageGeometry { width: 595 * UNIT, height: 842 * UNIT, rotation: 90 };
    let turned = plan_grid(&Config::standard(), 1, &turned, 200 * UNIT).expect("a plan");
    assert_eq!(content_of(&doc, ids[1]), render(&turned));
}

#[test]
fn what_a_page_draws_already_comes_first() {
    let (mut doc, ids) = document(vec![plain_page(None)]);
    let old = doc.add_object(Object::Stream(Stream::new(Dictionary::new(), b"0 0 m 5 5 l S".to_vec())));
    if let Ok(Object::Dictionary(page)) = doc.get_object_mut(ids[0]) {
        page.set("Contents", Object::Reference(old));
    }
    let resource = doc.add_object(Object::Stream(Stream::new(form(), b"q Q".to_vec())));
    watermark_pages(&mut doc, &Config::standard(), 1, resource, 200 * UNIT).expect("a run");
    let streams = doc.get_page_contents(ids[0]);
    assert_eq!(streams.len(), 2);
    assert_eq!(streams[0], old);
    let content = content_of(&doc, ids[0]);
    assert!(content.starts_with(b"0 0 m 5 5 l S"));
    assert!(draws_the_watermark(&doc, ids[0]));
}

#[test]
fn a_page_that_is_no_container_is_skipped_and_the_rest_is_done() {
    let (mut doc, ids) = document(vec![plain_page(None), Object::Integer(5), plain_page(None)]);
    let resource = doc.add_object(Object::Stream(Stream::new(form(), b"q Q".to_vec())));
    let records = watermark_pages(&mut doc, &Config::standard(), 1, resource, 200 * UNIT)
        .expect("a finished run");
    assert_eq!(records.len(), 3);
    assert_eq!(records[0].outcome, PageOutcome::Watermarked { instances: 19 });
    assert_eq!(records[1].number, 2);
    assert_eq!(records[1].page, ids[1]);
    assert_eq!(records[1].outcome, PageOutcome::Skipped(PageError::NotAContainer));
    assert_eq!(records[2].outcome, PageOutcome::Watermarked { instances: 19 });
    assert!(draws_the_watermark(&doc, ids[0]));
    assert!(!draws_the_watermark(&doc, ids[1]));
    assert!(draws_the_watermark(&doc, ids[2]));
    assert_eq!(doc.get_object(ids[1]).expect("the page"), &Object::Integer(5));
}

#[test]
fn a_page_that_takes_no_content_is_skipped_and_the_rest_is_done() {
    let mut odd = Dictionary::new();
    odd.set("Type", Object::Name(b"Page".to_vec()));
    let odd = Object::Stream(Stream::new(odd, b"BT ET".to_vec()));
    let (mut doc, ids) = document(vec![plain_page(None), odd, plain_page(None)]);
    let resource = doc.add_object(Object::Stream(Stream::new(form(), b"q Q".to_vec())));
    let records = watermark_pages(&mut doc, &Config::standard(), 1, resource, 200 * UNIT)
        .expect("a finished run");
    let outcomes: Vec<PageOutcome> = records.iter().map(|r| r.outcome).collect();
    assert_eq!(
        outcomes,
        vec![
            PageOutcome::Watermarked { instances: 19 },
            PageOutcome::Skipped(PageError::AppendRejected),
            PageOutcome::Watermarked { instances: 19 },
        ]
    );
    assert!(draws_the_watermark(&doc, ids[0]));
    assert!(!draws_the_watermark(&doc, ids[1]));
    assert!(draws_the_watermark(&doc, ids[2]));
}

#[test]
fn a_page_that_is_missing_is_skipped_and_the_rest_is_done() {
    let (mut doc, ids) = document(vec![plain_page(None), Object::Null, plain_page(None)]);
    doc.objects.remove(&ids[1]);
    let resource = doc.add_object(Object::Stream(Stream::new(form(), b"q Q".to_vec())));
    let records = watermark_pages(&mut doc, &Config::standard(), 1, resource, 200 * UNIT)
        .expect("a finished run");
    let outcomes: Vec<PageOutcome> = records.iter().map(|r| r.outcome).collect();
    assert_eq!(
        outcomes,
        vec![
            PageOutcome::Watermarked { instances: 19 },
            PageOutcome::Skipped(PageError::Missing),
            PageOutcome::Watermarked { instances: 19 },
        ]
    );
}

#[test]
fn pages_with_resources_elsewhere_are_skipped() {
    let mut shared = Dictionary::new();
    shared.set("Type", Object::Name(b"Page".to_vec()));
    shared.set("Resources", Object::Reference((90, 0)));
    let mut odd = Dictionary::new();
    odd.set("Type", Object::Name(b"Page".to_vec()));
    let mut resources = Dictionary::new();
    resources.set("XObject", Object::Name(b"None".to_vec()));
    odd.set("Resources", Object::Dictionary(resources));
    let (mut doc, _) = document(vec![Object::Dictionary(shared), Object::Dictionary(odd)]);
    let resource = doc.add_object(Object::Stream(Stream::new(form(), b"q Q".to_vec())));
    let records = watermark_pages(&mut doc, &Config::standard(), 1, resource, 200 * UNIT)
        .expect("a finished run");
    let outcomes: Vec<PageOutcome> = records.iter().map(|r| r.outcome).collect();
    assert_eq!(
        outcomes,
        vec![
            PageOutcome::Skipped(PageError::ResourcesUnusable),
            PageOutcome::Skipped(PageError::DrawablesUnusable),
        ]
    );
}

#[test]
fn two_runs_on_two_copies_agree() {
    let (doc, ids) = document(vec![
        plain_page(None),
        Object::Integer(5),
        plain_page(Some(90)),
        plain_page(Some(180)),
    ]);
    let mut first = doc.clone();
    let mut second = doc;
    let resource_one = first.add_object(Object::Stream(Stream::new(form(), b"q Q".to_vec())));
    let resource_two = second.add_object(Object::Stream(Stream::new(form(), b"q Q".to_vec())));
    assert_eq!(resource_one, resource_two);
    let one = watermark_pages(&mut first, &Config::standard(), 1, resource_one, 200 * UNIT);
    let two = watermark_pages(&mut second, &Config::standard(), 1, resource_two, 200 * UNIT);
    assert_eq!(one, two);
    assert_eq!(one.expect("a run").len(), 4);
    assert_eq!(first.get_pages().len(), second.get_pages().len());
    for id in ids {
        assert_eq!(content_of(&first, id), content_of(&second, id));
    }
    assert_eq!(first.objects, second.objects);
}

#[test]
fn a_document_without_pages_has_no_records() {
    let (mut doc, _) = document(Vec::new());
    let mut config = Config::standard();
    config.point_size = 0;
    assert_eq!(watermark_pages(&mut doc, &config, 1, (50, 0), 200 * UNIT), Ok(Vec::new()));
    let mut bare = Document::with_version("1.5");
    assert_eq!(
        watermark_pages(&mut bare, &Config::standard(), 1, (50, 0), 200 * UNIT),
        Ok(Vec::new())
    );
}

#[test]
fn a_step_that_is_too_small_ends_the_run() {
    let (mut doc, _) = document(vec![plain_page(None), plain_page(None)]);
    let before = doc.objects.clone();
    assert_eq!(
        watermark_pages(&mut doc, &Config::standard(), 1, (50, 0), -30 * UNIT),
        Err(PlanError::Sizing)
    );
    assert_eq!(doc.objects, before);
}

#[test]
fn a_lattice_that_is_too_dense_ends_the_run() {
    let (mut doc, ids) = document(vec![plain_page(None), plain_page(None)]);
    let before = doc.objects.clone();
    let mut config = Config::standard();
    config.horizontal_gap = 200_000;
    config.vertical_multiplier = 10_000;
    assert_eq!(watermark_pages(&mut doc, &config, 1, (50, 0), 0), Err(PlanError::Density));
    assert_eq!(doc.objects, before);
    assert_eq!(ids.len(), 2);
}

#[test]
fn a_later_page_that_is_too_dense_ends_the_run_before_anything_is_written() {
    let mut large = Dictionary::new();
    large.set("Type", Object::Name(b"Page".to_vec()));
    large.set(
        "MediaBox",
        Object::Array(vec![
            Object::Integer(0),
            Object::Integer(0),
            Object::Integer(900_000),
            Object::Integer(900_000),
        ]),
    );
    let (mut doc, _) = document(vec![plain_page(None), Object::Dictionary(large), plain_page(None)]);
    let before = doc.objects.clone();
    assert_eq!(survey(&doc, &Config::standard(), 200 * UNIT), Err(PlanError::Density));
    assert_eq!(
        watermark_pages(&mut doc, &Config::standard(), 1, (50, 0), 200 * UNIT),
        Err(PlanError::Density)
    );
    assert_eq!(doc.objects, before);
    assert_eq!(
        watermark_document(&mut doc, form(), &letter(), 1000 * UNIT, &Config::standard()),
        Err(RunError::Plan(PlanError::Density))
    );
    assert_eq!(doc.objects, before);
    assert_eq!(doc.max_id, before.len() as u32);
}

#[test]
fn the_first_page_that_cannot_be_planned_gives_the_error() {
    let mut large = Dictionary::new();
    large.set("Type", Object::Name(b"Page".to_vec()));
    large.set(
        "MediaBox",
        Object::Array(vec![
            Object::Integer(0),
            Object::Integer(0),
            Object::Integer(900_000),
            Object::Integer(900_000),
        ]),
    );
    let (doc, _) = document(vec![Object::Dictionary(large), plain_page(None)]);
    // too dense on the first page, too small a step on every page
    assert_eq!(survey(&doc, &Config::standard(), -30 * UNIT), Err(PlanError::Sizing));
    assert_eq!(survey(&doc, &Config::standard(), 200 * UNIT), Err(PlanError::Density));
}

#[test]
fn a_survey_holds_every_page_with_its_geometry() {
    let config = Config::standard();
    let (doc, ids) = document(vec![plain_page(None), Object::Integer(5), plain_page(Some(90))]);
    let found = survey(&doc, &config, 200 * UNIT).expect("a survey");
    let upright = PageGeometry::standard();
    let turned = PageGeometry { width: 595 * UNIT, height: 842 * UNIT, rotation: 90 };
    assert_eq!(
        found,
        vec![
            PageSurvey {
                number: 1,
                page: ids[0],
                geometry: upright,
                lattice: measure_lattice(&config, &upright, 200 * UNIT).expect("a lattice"),
                obstacle: None,
            },
            PageSurvey {
                number: 2,
                page: ids[1],
                geometry: upright,
                lattice: measure_lattice(&config, &upright, 200 * UNIT).expect("a lattice"),
                obstacle: Some(PageError::NotAContainer),
            },
            PageSurvey {
                number: 3,
                page: ids[2],
                geometry: turned,
                lattice: measure_lattice(&config, &turned, 200 * UNIT).expect("a lattice"),
                obstacle: None,
            },
        ]
    );
    assert_ne!(found[0].lattice, found[2].lattice);
}

#[test]
fn stamping_follows_the_survey() {
    let (mut doc, ids) = document(vec![plain_page(None), plain_page(None)]);
    let small = PageGeometry { width: 100 * UNIT, height: 100 * UNIT, rotation: 0 };
    let lattice = measure_lattice(&Config::standard(), &small, 20 * UNIT).expect("a lattice");
    let found = vec![
        PageSurvey { number: 8, page: ids[1], geometry: small, lattice, obstacle: None },
        PageSurvey {
            number: 9,
            page: (77, 0),
            geometry: small,
            lattice,
            obstacle: Some(PageError::Missing),
        },
    ];
    let records = stamp(&mut doc, 1, (40, 0), &found);
    assert_eq!(
        records,
        vec![
            PageRecord { number: 8, page: ids[1], outcome: PageOutcome::Watermarked { instances: 4 } },
            PageRecord { number: 9, page: (77, 0), outcome: PageOutcome::Skipped(PageError::Missing) },
        ]
    );
    assert!(!draws_the_watermark(&doc, ids[0]));
    assert!(draws_the_watermark(&doc, ids[1]));
}

#[test]
fn measuring_gives_the_error_of_planning() {
    let config = Config::standard();
    let page = PageGeometry::standard();
    assert!(measure_lattice(&config, &page, 200 * UNIT).is_ok());
    assert_eq!(measure_lattice(&config, &page, -30 * UNIT), Err(PlanError::Sizing));
    let mut dense = Config::standard();
    dense.horizontal_gap = 200_000;
    dense.vertical_multiplier = 10_000;
    assert_eq!(measure_lattice(&dense, &page, 0), Err(PlanError::Density));
    dense.max_instances = 0;
    assert_eq!(measure_lattice(&dense, &page, 0), Err(PlanError::Density));
    assert_eq!(plan_grid(&dense, 1, &page, 0), Err(PlanError::Density));
}

#[test]
fn a_measured_lattice_gives_the_plan() {
    let config = Config::standard();
    let page = PageGeometry { width: 100 * UNIT, height: 100 * UNIT, rotation: 0 };
    let lattice = measure_lattice(&config, &page, 20 * UNIT).expect("a lattice");
    assert_eq!(Ok(lattice.instances(5)), plan_grid(&config, 5, &page, 20 * UNIT));
    assert_eq!(lattice.instances(5).len(), 16);
}

#[test]
fn a_page_names_its_new_content_last() {
    let (mut doc, ids) = document(vec![plain_page(None), plain_page(None), plain_page(None)]);
    let first = doc.add_object(Object::Stream(Stream::new(Dictionary::new(), b"0 0 m".to_vec())));
    let second = doc.add_object(Object::Stream(Stream::new(Dictionary::new(), b"5 5 l".to_vec())));
    if let Ok(Object::Dictionary(page)) = doc.get_object_mut(ids[1]) {
        page.set("Contents", Object::Reference(first));
    }
    if let Ok(Object::Dictionary(page)) = doc.get_object_mut(ids[2]) {
        page.set(
            "Contents",
            Object::Array(vec![Object::Reference(first), Object::Reference(second)]),
        );
    }
    let ops = vec![Op::PaintFill];
    for (index, expected) in [
        (0usize, Vec::new()),
        (1, vec![Object::Reference(first)]),
        (2, vec![Object::Reference(first), Object::Reference(second)]),
    ] {
        let next = (doc.max_id + 1, 0);
        assert_eq!(append_instructions(&mut doc, ids[index], &ops), Ok(()));
        assert_eq!(doc.max_id, next.0);
        let mut wanted = expected;
        wanted.push(Object::Reference(next));
        let page = doc.get_dictionary(ids[index]).expect("the page");
        assert_eq!(page.get(b"Contents").expect("contents"), &Object::Array(wanted));
        assert!(page.has(b"MediaBox"));
        match doc.get_object(next).expect("the new stream") {
            Object::Stream(stream) => {
                assert_eq!(stream.content, b"f\n".to_vec());
                assert_eq!(stream.dict.len(), 1);
                assert_eq!(stream.dict.get(b"Length").expect("a length"), &Object::Integer(2));
            }
            other => panic!("no stream: {:?}", other),
        }
    }
}

#[test]
fn the_resource_takes_the_next_object_number() {
    let (mut doc, _) = document(vec![plain_page(None)]);
    doc.max_id = 41;
    watermark_document(&mut doc, form(), &letter(), 1000 * UNIT, &Config::standard())
        .expect("a run");
    assert!(matches!(doc.get_object((42, 0)), Ok(Object::Stream(_))));
    assert!(matches!(doc.get_object((43, 0)), Ok(Object::Stream(_))));
    assert_eq!(doc.max_id, 43);
}

#[test]
fn a_taken_object_number_leaves_no_room() {
    let (mut doc, ids) = document(vec![plain_page(None)]);
    // the next object number is that of the page itself
    doc.max_id = ids[0].0 - 1;
    let before = doc.objects.clone();
    let ops = vec![Op::PaintFill];
    assert!(!room_left(&doc));
    assert_eq!(append_instructions(&mut doc, ids[0], &ops), Err(PageError::DocumentFull));
    assert_eq!(inject(&mut doc, ids[0], 1, (40, 0), &ops), Err(PageError::DocumentFull));
    assert_eq!(doc.objects, before);
}

#[test]
fn reading_tells_what_stands_in_the_way() {
    let mut odd = Dictionary::new();
    odd.set("Type", Object::Name(b"Page".to_vec()));
    let odd = Object::Stream(Stream::new(odd, b"BT ET".to_vec()));
    let (doc, ids) = document(vec![plain_page(None), odd, Object::Integer(3)]);
    assert_eq!(check_page(&doc, ids[0]), None);
    assert_eq!(check_page(&doc, ids[1]), Some(PageError::AppendRejected));
    assert_eq!(check_page(&doc, ids[2]), Some(PageError::NotAContainer));
    assert_eq!(check_page(&doc, (99, 0)), Some(PageError::Missing));
    assert!(room_left(&doc));
}

#[test]
fn a_skipped_page_is_not_touched_at_all() {
    let mut odd = Dictionary::new();
    odd.set("Type", Object::Name(b"Page".to_vec()));
    let odd = Object::Stream(Stream::new(odd, b"BT ET".to_vec()));
    let mut shared = Dictionary::new();
    shared.set("Type", Object::Name(b"Page".to_vec()));
    shared.set("Resources", Object::Reference((90, 0)));
    let (mut doc, ids) =
        document(vec![plain_page(None), odd, Object::Dictionary(shared), plain_page(None)]);
    let before = doc.clone();
    let records =
        watermark_document(&mut doc, form(), &letter(), 1000 * UNIT, &Config::standard())
            .expect("a run");
    let skipped: Vec<usize> = records
        .iter()
        .filter(|r| matches!(r.outcome, PageOutcome::Skipped(_)))
        .map(|r| r.number)
        .collect();
    assert_eq!(skipped, vec![2, 3]);
    assert_eq!(doc.objects.get(&ids[1]), before.objects.get(&ids[1]));
    assert_eq!(doc.objects.get(&ids[2]), before.objects.get(&ids[2]));
    // the resource and one content stream for each of the two other pages
    assert_eq!(doc.objects.len(), before.objects.len() + 3);
    assert_eq!(doc.max_id, before.max_id + 3);
    for (id, object) in before.objects.iter() {
        if *id != ids[0] && *id != ids[3] {
            assert_eq!(doc.objects.get(id), Some(object));
        }
    }
    assert_eq!(doc.get_pages(), before.get_pages());
}

#[test]
fn a_watermarked_page_knows_the_resource_and_draws_its_plan_last() {
    let (mut doc, ids) = document(vec![plain_page(None), plain_page(Some(90))]);
    let old = doc.add_object(Object::Stream(Stream::new(Dictionary::new(), b"0 0 m 9 9 l S".to_vec())));
    if let Ok(Object::Dictionary(page)) = doc.get_object_mut(ids[1]) {
        page.set("Contents", Object::Reference(old));
    }
    let before = doc.clone();
    let resource = (before.max_id + 1, 0);
    let records =
        watermark_document(&mut doc, form(), &letter(), 1000 * UNIT, &Config::standard())
            .expect("a run");
    assert_eq!(records.len(), 2);
    let scale = FontScale::uniform(26 * UNIT, 1000 * UNIT).expect("a scale");
    let width = measure_width(&letter(), scale);
    for (index, id) in ids.iter().enumerate() {
        assert!(knows_the_watermark(&doc, *id, resource));
        let stream = (before.max_id + 2 + index as u32, 0);
        let mut wanted = before.get_page_contents(*id);
        wanted.push(stream);
        assert_eq!(doc.get_page_contents(*id), wanted);
        let geometry = PageGeometry {
            width: 595 * UNIT,
            height: 842 * UNIT,
            rotation: if index == 0 { 0 } else { 90 },
        };
        let plan = plan_grid(&Config::standard(), 1, &geometry, width).expect("a plan");
        match doc.get_object(stream).expect("the stream") {
            Object::Stream(s) => assert_eq!(s.content, render(&plan)),
            other => panic!("no stream: {:?}", other),
        }
    }
}
